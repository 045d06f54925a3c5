//! Exported USB devices, their interfaces and their endpoints.

use vstd::prelude::*;

use crate::wire::{
    be16, be16_at, be32, be32_at, fixed, get_le16, le16_at, lemma_be16_read_back,
    lemma_be32_read_back, put_be16, put_be32, put_fixed,
};

verus! {

/// Speed of a device, as USB/IP numbers it.
#[derive(Clone, Copy, Debug, PartialEq, Eq, Structural)]
pub enum UsbSpeed {
    Unknown,
    Low,
    Full,
    High,
    Wireless,
    Super,
    SuperPlus,
}

impl UsbSpeed {
    /// The number of this speed on the wire.
    pub open spec fn code(self) -> u32 {
        match self {
            UsbSpeed::Unknown => 0,
            UsbSpeed::Low => 1,
            UsbSpeed::Full => 2,
            UsbSpeed::High => 3,
            UsbSpeed::Wireless => 4,
            UsbSpeed::Super => 5,
            UsbSpeed::SuperPlus => 6,
        }
    }

    /// The number of this speed on the wire.
    pub fn as_u32(self) -> (code: u32)
        ensures
            code == self.code(),
    {
        match self {
            UsbSpeed::Unknown => 0,
            UsbSpeed::Low => 1,
            UsbSpeed::Full => 2,
            UsbSpeed::High => 3,
            UsbSpeed::Wireless => 4,
            UsbSpeed::Super => 5,
            UsbSpeed::SuperPlus => 6,
        }
    }
}

/// `attributes` of a control endpoint.
pub const ENDPOINT_CONTROL: u8 = 0;

/// `attributes` of an isochronous endpoint.
pub const ENDPOINT_ISOCHRONOUS: u8 = 1;

/// `attributes` of a bulk endpoint.
pub const ENDPOINT_BULK: u8 = 2;

/// `attributes` of an interrupt endpoint.
pub const ENDPOINT_INTERRUPT: u8 = 3;

/// An endpoint of a USB device.
#[derive(Clone, Copy, Debug, PartialEq, Eq, Structural)]
pub struct UsbEndpoint {
    /// bEndpointAddress: the number, and 0x80 where data flows to the host.
    pub address: u8,
    /// bmAttributes: the transfer type.
    pub attributes: u8,
    /// wMaxPacketSize
    pub max_packet_size: u16,
    /// bInterval
    pub interval: u8,
}

impl Default for UsbEndpoint {
    fn default() -> (r: Self)
        ensures
            r == (UsbEndpoint { address: 0, attributes: 0, max_packet_size: 0, interval: 0 }),
    {
        UsbEndpoint { address: 0, attributes: 0, max_packet_size: 0, interval: 0 }
    }
}

/// An interface of a USB device.
#[derive(Debug, Default)]
pub struct UsbInterface {
    pub interface_class: u8,
    pub interface_subclass: u8,
    pub interface_protocol: u8,
    pub endpoints: Vec<UsbEndpoint>,
    pub string_interface: u8,
    pub class_specific_descriptor: Vec<u8>,
}

/// What an interface consists of.
#[verifier::ext_equal]
pub struct InterfaceView {
    pub interface_class: u8,
    pub interface_subclass: u8,
    pub interface_protocol: u8,
    pub endpoints: Seq<UsbEndpoint>,
    pub string_interface: u8,
    pub class_specific_descriptor: Seq<u8>,
}

impl View for UsbInterface {
    type V = InterfaceView;

    open spec fn view(&self) -> InterfaceView {
        InterfaceView {
            interface_class: self.interface_class,
            interface_subclass: self.interface_subclass,
            interface_protocol: self.interface_protocol,
            endpoints: self.endpoints@,
            string_interface: self.string_interface,
            class_specific_descriptor: self.class_specific_descriptor@,
        }
    }
}

impl Clone for UsbInterface {
    fn clone(&self) -> (r: Self)
        ensures
            r@ == self@,
    {
        let endpoints = self.endpoints.clone();
        let class_specific_descriptor = self.class_specific_descriptor.clone();
        assert(endpoints@ =~= self.endpoints@);
        assert(class_specific_descriptor@ =~= self.class_specific_descriptor@);
        UsbInterface {
            interface_class: self.interface_class,
            interface_subclass: self.interface_subclass,
            interface_protocol: self.interface_protocol,
            endpoints,
            string_interface: self.string_interface,
            class_specific_descriptor,
        }
    }
}

/// A USB device that is exported over USB/IP.
#[derive(Debug)]
pub struct UsbDevice {
    pub path: String,
    pub bus_id: String,
    pub bus_num: u32,
    pub dev_num: u32,
    pub speed: u32,
    pub vendor_id: u16,
    pub product_id: u16,
    pub device_bcd: u16,
    pub device_class: u8,
    pub device_subclass: u8,
    pub device_protocol: u8,
    pub configuration_value: u8,
    pub num_configurations: u8,
    pub ep0_in: UsbEndpoint,
    pub ep0_out: UsbEndpoint,
    pub interfaces: Vec<UsbInterface>,
    pub usb_version: u16,
    /// The string descriptors; the first has index 1.
    pub string_pool: Vec<String>,
    pub string_manufacturer: u8,
    pub string_product: u8,
    pub string_serial: u8,
    /// What the embedding program knows the handlers of this device by.
    pub device_handler: Option<u64>,
    /// What the embedding program knows the physical device by that serves
    /// the transfers of this one, where there is such a device.
    pub host_runtime: Option<u64>,
}

/// What a device consists of.
#[verifier::ext_equal]
pub struct DeviceView {
    pub path: Seq<char>,
    pub bus_id: Seq<char>,
    pub bus_num: u32,
    pub dev_num: u32,
    pub speed: u32,
    pub vendor_id: u16,
    pub product_id: u16,
    pub device_bcd: u16,
    pub device_class: u8,
    pub device_subclass: u8,
    pub device_protocol: u8,
    pub configuration_value: u8,
    pub num_configurations: u8,
    pub ep0_in: UsbEndpoint,
    pub ep0_out: UsbEndpoint,
    pub interfaces: Seq<InterfaceView>,
    pub usb_version: u16,
    pub string_pool: Seq<Seq<char>>,
    pub string_manufacturer: u8,
    pub string_product: u8,
    pub string_serial: u8,
    pub device_handler: Option<u64>,
    pub host_runtime: Option<u64>,
}

/// The views of interfaces.
pub open spec fn interface_views(v: Seq<UsbInterface>) -> Seq<InterfaceView> {
    Seq::new(v.len(), |i: int| v[i]@)
}

/// The views of strings.
pub open spec fn string_views(v: Seq<String>) -> Seq<Seq<char>> {
    Seq::new(v.len(), |i: int| v[i]@)
}

/// The views of devices.
pub open spec fn device_views(v: Seq<UsbDevice>) -> Seq<DeviceView> {
    Seq::new(v.len(), |i: int| v[i]@)
}

impl View for UsbDevice {
    type V = DeviceView;

    open spec fn view(&self) -> DeviceView {
        DeviceView {
            path: self.path@,
            bus_id: self.bus_id@,
            bus_num: self.bus_num,
            dev_num: self.dev_num,
            speed: self.speed,
            vendor_id: self.vendor_id,
            product_id: self.product_id,
            device_bcd: self.device_bcd,
            device_class: self.device_class,
            device_subclass: self.device_subclass,
            device_protocol: self.device_protocol,
            configuration_value: self.configuration_value,
            num_configurations: self.num_configurations,
            ep0_in: self.ep0_in,
            ep0_out: self.ep0_out,
            interfaces: interface_views(self.interfaces@),
            usb_version: self.usb_version,
            string_pool: string_views(self.string_pool@),
            string_manufacturer: self.string_manufacturer,
            string_product: self.string_product,
            string_serial: self.string_serial,
            device_handler: self.device_handler,
            host_runtime: self.host_runtime,
        }
    }
}

/// The class, subclass and protocol of an interface and a padding byte.
pub open spec fn interface_wire(intf: InterfaceView) -> Seq<u8> {
    seq![intf.interface_class, intf.interface_subclass, intf.interface_protocol, 0u8]
}

/// [`interface_wire`] of each of `intfs`, in order.
pub open spec fn interfaces_wire(intfs: Seq<InterfaceView>) -> Seq<u8>
    decreases intfs.len(),
{
    if intfs.len() == 0 {
        seq![]
    } else {
        interfaces_wire(intfs.drop_last()) + interface_wire(intfs.last())
    }
}

/// The position of the first of `eps` with address `addr`.
pub open spec fn endpoint_position(eps: Seq<UsbEndpoint>, addr: u8) -> Option<int>
    decreases eps.len(),
{
    if eps.len() == 0 {
        None
    } else {
        match endpoint_position(eps.drop_last(), addr) {
            Some(i) => Some(i),
            None => if eps.last().address == addr {
                Some(eps.len() - 1)
            } else {
                None
            },
        }
    }
}

/// The first endpoint with address `addr`, in the order of the interfaces, and
/// the position of its interface.
pub open spec fn interface_endpoint(intfs: Seq<InterfaceView>, addr: u8) -> Option<
    (UsbEndpoint, int),
>
    decreases intfs.len(),
{
    if intfs.len() == 0 {
        None
    } else {
        match interface_endpoint(intfs.drop_last(), addr) {
            Some(found) => Some(found),
            None => match endpoint_position(intfs.last().endpoints, addr) {
                Some(j) => Some((intfs.last().endpoints[j], intfs.len() - 1)),
                None => None,
            },
        }
    }
}

impl DeviceView {
    /// The 312 bytes that describe this device in a reply.
    pub open spec fn wire(self) -> Seq<u8> {
        fixed(vstd::utf8::encode_utf8(self.path), 256) + fixed(
            vstd::utf8::encode_utf8(self.bus_id),
            32,
        ) + be32(self.bus_num) + be32(self.dev_num) + be32(self.speed) + be16(self.vendor_id)
            + be16(self.product_id) + be16(self.device_bcd) + seq![
            self.device_class,
            self.device_subclass,
            self.device_protocol,
            self.configuration_value,
            self.num_configurations,
            (self.interfaces.len() % 256) as u8,
        ]
    }

    /// [`Self::wire`] and four bytes for each interface.
    pub open spec fn wire_with_interfaces(self) -> Seq<u8> {
        self.wire() + interfaces_wire(self.interfaces)
    }

    /// The endpoint with address `addr`, and the position of its interface
    /// unless it is an endpoint zero.
    pub open spec fn endpoint(self, addr: u8) -> Option<(UsbEndpoint, Option<int>)> {
        if addr == self.ep0_in.address {
            Some((self.ep0_in, None))
        } else if addr == self.ep0_out.address {
            Some((self.ep0_out, None))
        } else {
            match interface_endpoint(self.interfaces, addr) {
                Some((ep, i)) => Some((ep, Some(i))),
                None => None,
            }
        }
    }

    /// The `devid` that a client addresses this device by.
    pub open spec fn devid(self) -> u32 {
        (self.bus_num << 16u32) | self.dev_num
    }
}

/// A device that describes nothing: no strings, no interfaces, all numbers
/// zero.
pub open spec fn blank_device() -> DeviceView {
    let ep = UsbEndpoint { address: 0, attributes: 0, max_packet_size: 0, interval: 0 };
    DeviceView {
        path: seq![],
        bus_id: seq![],
        bus_num: 0,
        dev_num: 0,
        speed: 0,
        vendor_id: 0,
        product_id: 0,
        device_bcd: 0,
        device_class: 0,
        device_subclass: 0,
        device_protocol: 0,
        configuration_value: 0,
        num_configurations: 0,
        ep0_in: ep,
        ep0_out: ep,
        interfaces: seq![],
        usb_version: 0,
        string_pool: seq![],
        string_manufacturer: 0,
        string_product: 0,
        string_serial: 0,
        device_handler: None,
        host_runtime: None,
    }
}

impl Default for UsbDevice {
    fn default() -> (r: Self)
        ensures
            r@ == blank_device(),
    {
        let r = UsbDevice {
            path: String::new(),
            bus_id: String::new(),
            bus_num: 0,
            dev_num: 0,
            speed: 0,
            vendor_id: 0,
            product_id: 0,
            device_bcd: 0,
            device_class: 0,
            device_subclass: 0,
            device_protocol: 0,
            configuration_value: 0,
            num_configurations: 0,
            ep0_in: UsbEndpoint { address: 0, attributes: 0, max_packet_size: 0, interval: 0 },
            ep0_out: UsbEndpoint { address: 0, attributes: 0, max_packet_size: 0, interval: 0 },
            interfaces: Vec::new(),
            usb_version: 0,
            string_pool: Vec::new(),
            string_manufacturer: 0,
            string_product: 0,
            string_serial: 0,
            device_handler: None,
            host_runtime: None,
        };
        assert(r@ =~= blank_device());
        r
    }
}

impl Clone for UsbDevice {
    fn clone(&self) -> (r: Self)
        ensures
            r@ == self@,
    {
        let interfaces = clone_interfaces(&self.interfaces);
        let string_pool = self.string_pool.clone();
        let r = UsbDevice {
            path: self.path.clone(),
            bus_id: self.bus_id.clone(),
            bus_num: self.bus_num,
            dev_num: self.dev_num,
            speed: self.speed,
            vendor_id: self.vendor_id,
            product_id: self.product_id,
            device_bcd: self.device_bcd,
            device_class: self.device_class,
            device_subclass: self.device_subclass,
            device_protocol: self.device_protocol,
            configuration_value: self.configuration_value,
            num_configurations: self.num_configurations,
            ep0_in: self.ep0_in,
            ep0_out: self.ep0_out,
            interfaces,
            usb_version: self.usb_version,
            string_pool,
            string_manufacturer: self.string_manufacturer,
            string_product: self.string_product,
            string_serial: self.string_serial,
            device_handler: self.device_handler,
            host_runtime: self.host_runtime,
        };
        assert(string_views(r.string_pool@) =~= string_views(self.string_pool@));
        r
    }
}

/// Copies interfaces.
fn clone_interfaces(v: &Vec<UsbInterface>) -> (r: Vec<UsbInterface>)
    ensures
        interface_views(r@) == interface_views(v@),
{
    let mut r: Vec<UsbInterface> = Vec::new();
    let mut i: usize = 0;
    while i < v.len()
        invariant
            i <= v@.len(),
            r@.len() == i,
            forall|j: int| 0 <= j < i ==> (#[trigger] r@[j])@ == v@[j]@,
        decreases v@.len() - i,
    {
        r.push(v[i].clone());
        i += 1;
    }
    assert(interface_views(r@) =~= interface_views(v@));
    r
}

/// Copies devices.
pub fn clone_devices(v: &[UsbDevice]) -> (r: Vec<UsbDevice>)
    ensures
        device_views(r@) == device_views(v@),
{
    let mut r: Vec<UsbDevice> = Vec::new();
    let mut i: usize = 0;
    while i < v.len()
        invariant
            i <= v@.len(),
            r@.len() == i,
            forall|j: int| 0 <= j < i ==> (#[trigger] r@[j])@ == v@[j]@,
        decreases v@.len() - i,
    {
        r.push(v[i].clone());
        i += 1;
    }
    assert(device_views(r@) =~= device_views(v@));
    r
}

impl UsbDevice {
    /// The description of this device in OP_REP_IMPORT, 312 bytes.
    pub fn to_bytes(&self) -> (r: Vec<u8>)
        ensures
            r@ == self@.wire(),
    {
        let mut result: Vec<u8> = Vec::with_capacity(312);
        put_fixed(&mut result, self.path.as_str().as_bytes(), 256);
        put_fixed(&mut result, self.bus_id.as_str().as_bytes(), 32);
        put_be32(&mut result, self.bus_num);
        put_be32(&mut result, self.dev_num);
        put_be32(&mut result, self.speed);
        put_be16(&mut result, self.vendor_id);
        put_be16(&mut result, self.product_id);
        put_be16(&mut result, self.device_bcd);
        result.push(self.device_class);
        result.push(self.device_subclass);
        result.push(self.device_protocol);
        result.push(self.configuration_value);
        result.push(self.num_configurations);
        result.push((self.interfaces.len() % 256) as u8);
        assert(result@ =~= self@.wire());
        result
    }

    /// The description of this device in OP_REP_DEVLIST: [`Self::to_bytes`]
    /// and four bytes for each interface.
    pub fn to_bytes_with_interfaces(&self) -> (r: Vec<u8>)
        ensures
            r@ == self@.wire_with_interfaces(),
    {
        let mut result = self.to_bytes();
        let ghost head = result@;
        let ghost intfs = self@.interfaces;
        let mut i: usize = 0;
        assert(result@ =~= head + interfaces_wire(intfs.take(0)));
        while i < self.interfaces.len()
            invariant
                i <= self.interfaces@.len(),
                intfs == self@.interfaces,
                result@ == head + interfaces_wire(intfs.take(i as int)),
            decreases self.interfaces@.len() - i,
        {
            let intf = &self.interfaces[i];
            result.push(intf.interface_class);
            result.push(intf.interface_subclass);
            result.push(intf.interface_protocol);
            result.push(0);
            proof {
                let t = intfs.take(i + 1);
                assert(t.drop_last() =~= intfs.take(i as int));
                assert(t.last() == intf@);
                assert(result@ =~= head + interfaces_wire(t));
            }
            i += 1;
        }
        assert(intfs.take(intfs.len() as int) =~= intfs);
        result
    }

    /// The endpoint with address `ep`, and the position of its interface
    /// unless it is an endpoint zero.
    pub fn find_ep(&self, ep: u8) -> (r: Option<(UsbEndpoint, Option<usize>)>)
        ensures
            match r {
                None => self@.endpoint(ep) is None,
                Some((e, None)) => self@.endpoint(ep) == Some((e, None::<int>)),
                Some((e, Some(i))) => self@.endpoint(ep) == Some((e, Some(i as int))),
            },
    {
        if ep == self.ep0_in.address {
            return Some((self.ep0_in, None));
        }
        if ep == self.ep0_out.address {
            return Some((self.ep0_out, None));
        }
        let ghost intfs = self@.interfaces;
        let mut i: usize = 0;
        while i < self.interfaces.len()
            invariant
                i <= self.interfaces@.len(),
                intfs == self@.interfaces,
                ep != self.ep0_in.address,
                ep != self.ep0_out.address,
                interface_endpoint(intfs.take(i as int), ep) is None,
            decreases self.interfaces@.len() - i,
        {
            let eps = &self.interfaces[i].endpoints;
            let mut j: usize = 0;
            while j < eps.len()
                invariant
                    j <= eps@.len(),
                    i < self.interfaces@.len(),
                    intfs == self@.interfaces,
                    eps@ == intfs[i as int].endpoints,
                    ep != self.ep0_in.address,
                    ep != self.ep0_out.address,
                    interface_endpoint(intfs.take(i as int), ep) is None,
                    endpoint_position(eps@.take(j as int), ep) is None,
                decreases eps@.len() - j,
            {
                proof {
                    assert(eps@.take(j + 1).drop_last() =~= eps@.take(j as int));
                }
                if eps[j].address == ep {
                    proof {
                        let t = intfs.take(i + 1);
                        assert(t.drop_last() =~= intfs.take(i as int));
                        lemma_endpoint_position_stable(eps@, j as int, ep);
                        lemma_interface_endpoint_stable(intfs, i as int, ep);
                    }
                    return Some((eps[j], Some(i)));
                }
                j += 1;
            }
            proof {
                assert(eps@.take(eps@.len() as int) =~= eps@);
                assert(intfs.take(i + 1).drop_last() =~= intfs.take(i as int));
            }
            i += 1;
        }
        assert(intfs.take(intfs.len() as int) =~= intfs);
        None
    }

    /// The `devid` that a client addresses this device by:
    /// `(bus_num << 16) | dev_num`.
    pub fn devid(&self) -> (devid: u32)
        ensures
            devid == self@.devid(),
    {
        (self.bus_num << 16u32) | self.dev_num
    }

    /// Adds a string descriptor and returns its index.
    pub fn new_string(&mut self, s: &str) -> (index: u8)
        requires
            old(self)@.string_pool.len() < 255,
        ensures
            index == old(self)@.string_pool.len() + 1,
            final(self)@ == (DeviceView {
                string_pool: old(self)@.string_pool.push(s@),
                ..old(self)@
            }),
    {
        let ghost before = self.string_pool@;
        self.string_pool.push(s.to_owned());
        assert(string_views(self.string_pool@) =~= string_views(before).push(s@));
        self.string_pool.len() as u8
    }
}

/// The first endpoint with a given address stays the first when endpoints
/// follow.
proof fn lemma_endpoint_position_stable(eps: Seq<UsbEndpoint>, j: int, addr: u8)
    requires
        0 <= j < eps.len(),
        endpoint_position(eps.take(j), addr) is None,
        eps[j].address == addr,
    ensures
        endpoint_position(eps, addr) == Some(j),
    decreases eps.len(),
{
    if eps.len() == j + 1 {
        assert(eps.drop_last() =~= eps.take(j));
    } else {
        let shorter = eps.drop_last();
        assert(shorter.take(j) =~= eps.take(j));
        lemma_endpoint_position_stable(shorter, j, addr);
    }
}

/// What the first interfaces decide about an address, the later ones do not
/// change.
proof fn lemma_interface_endpoint_stable(intfs: Seq<InterfaceView>, i: int, addr: u8)
    requires
        0 <= i < intfs.len(),
        interface_endpoint(intfs.take(i), addr) is None,
        endpoint_position(intfs[i].endpoints, addr) is Some,
    ensures
        interface_endpoint(intfs, addr) == Some(
            (intfs[i].endpoints[endpoint_position(intfs[i].endpoints, addr)->0], i),
        ),
    decreases intfs.len(),
{
    if intfs.len() == i + 1 {
        assert(intfs.drop_last() =~= intfs.take(i));
    } else {
        let shorter = intfs.drop_last();
        assert(shorter.take(i) =~= intfs.take(i));
        lemma_interface_endpoint_stable(shorter, i, addr);
    }
}

/// An endpoint that [`DeviceView::endpoint`] finds has the address that it was
/// looked up by.
pub proof fn law_endpoint_has_address(d: DeviceView, addr: u8)
    ensures
        d.endpoint(addr) matches Some((ep, _)) ==> ep.address == addr,
{
    lemma_interface_endpoint_address(d.interfaces, addr);
}

proof fn lemma_interface_endpoint_address(intfs: Seq<InterfaceView>, addr: u8)
    ensures
        interface_endpoint(intfs, addr) matches Some((ep, i)) ==> ep.address == addr && 0 <= i
            < intfs.len(),
    decreases intfs.len(),
{
    if intfs.len() > 0 {
        lemma_interface_endpoint_address(intfs.drop_last(), addr);
        lemma_endpoint_position_address(intfs.last().endpoints, addr);
    }
}

proof fn lemma_endpoint_position_address(eps: Seq<UsbEndpoint>, addr: u8)
    ensures
        endpoint_position(eps, addr) matches Some(j) ==> 0 <= j < eps.len() && eps[j].address
            == addr,
    decreases eps.len(),
{
    if eps.len() > 0 {
        lemma_endpoint_position_address(eps.drop_last(), addr);
    }
}

/// A device takes 312 bytes in OP_REP_IMPORT, and four more for each interface
/// in OP_REP_DEVLIST.
pub proof fn law_device_wire_length(d: DeviceView)
    ensures
        d.wire().len() == 312,
        d.wire_with_interfaces().len() == 312 + 4 * d.interfaces.len(),
{
    lemma_interfaces_wire_length(d.interfaces);
}

proof fn lemma_interfaces_wire_length(intfs: Seq<InterfaceView>)
    ensures
        interfaces_wire(intfs).len() == 4 * intfs.len(),
    decreases intfs.len(),
{
    if intfs.len() > 0 {
        lemma_interfaces_wire_length(intfs.drop_last());
    }
}

/// A USB setup packet.
#[derive(Clone, Copy, Debug, PartialEq, Eq, Structural)]
pub struct SetupPacket {
    /// bmRequestType
    pub request_type: u8,
    /// bRequest
    pub request: u8,
    /// wValue
    pub value: u16,
    /// wIndex
    pub index: u16,
    /// wLength
    pub length: u16,
}

/// The setup packet that eight bytes hold.
pub open spec fn setup_of(s: Seq<u8>) -> SetupPacket {
    SetupPacket {
        request_type: s[0],
        request: s[1],
        value: le16_at(s, 2),
        index: le16_at(s, 4),
        length: le16_at(s, 6),
    }
}

impl SetupPacket {
    /// Reads a setup packet.
    pub fn parse(setup: &[u8; 8]) -> (r: SetupPacket)
        ensures
            r == setup_of(setup@),
    {
        let s = setup.as_slice();
        SetupPacket {
            request_type: s[0],
            request: s[1],
            value: get_le16(s, 2),
            index: get_le16(s, 4),
            length: get_le16(s, 6),
        }
    }
}

/// Each field of a device stands at its place of the USB/IP protocol: the path
/// at 0, the bus id at 256, and the numbers from 288 on.
pub proof fn law_device_fields(d: DeviceView, i: int)
    ensures
        ({
            let w = d.wire();
            let path = vstd::utf8::encode_utf8(d.path);
            let bus_id = vstd::utf8::encode_utf8(d.bus_id);
            &&& w.len() == 312
            &&& 0 <= i < 256 ==> w[i] == (if i < path.len() {
                path[i]
            } else {
                0u8
            })
            &&& 0 <= i < 32 ==> w[256 + i] == (if i < bus_id.len() {
                bus_id[i]
            } else {
                0u8
            })
            &&& be32_at(w, 288) == d.bus_num
            &&& be32_at(w, 292) == d.dev_num
            &&& be32_at(w, 296) == d.speed
            &&& be16_at(w, 300) == d.vendor_id
            &&& be16_at(w, 302) == d.product_id
            &&& be16_at(w, 304) == d.device_bcd
            &&& w[306] == d.device_class
            &&& w[307] == d.device_subclass
            &&& w[308] == d.device_protocol
            &&& w[309] == d.configuration_value
            &&& w[310] == d.num_configurations
            &&& d.interfaces.len() < 256 ==> w[311] == d.interfaces.len()
        }),
{
    let w = d.wire();
    let path = fixed(vstd::utf8::encode_utf8(d.path), 256);
    let bus_id = fixed(vstd::utf8::encode_utf8(d.bus_id), 32);
    let names = path + bus_id;
    let numbers = be32(d.bus_num) + be32(d.dev_num) + be32(d.speed) + be16(d.vendor_id) + be16(
        d.product_id,
    ) + be16(d.device_bcd) + seq![
        d.device_class,
        d.device_subclass,
        d.device_protocol,
        d.configuration_value,
        d.num_configurations,
        (d.interfaces.len() % 256) as u8,
    ];
    assert(w =~= names + numbers);
    assert(forall|k: int| 0 <= k < 24 ==> w[288 + k] == #[trigger] numbers[k]);
    lemma_device_numbers(d, numbers);
    assert(numbers[0] == w[288] && numbers[1] == w[289] && numbers[2] == w[290] && numbers[3]
        == w[291] && numbers[4] == w[292] && numbers[5] == w[293] && numbers[6] == w[294]
        && numbers[7] == w[295] && numbers[8] == w[296] && numbers[9] == w[297] && numbers[10]
        == w[298] && numbers[11] == w[299] && numbers[12] == w[300] && numbers[13] == w[301]
        && numbers[14] == w[302] && numbers[15] == w[303] && numbers[16] == w[304] && numbers[17]
        == w[305]);
    assert(0 <= i < 256 ==> w[i] == names[i]);
    assert(0 <= i < 32 ==> w[256 + i] == names[256 + i]);
}

proof fn lemma_device_numbers(d: DeviceView, numbers: Seq<u8>)
    requires
        numbers == be32(d.bus_num) + be32(d.dev_num) + be32(d.speed) + be16(d.vendor_id) + be16(
            d.product_id,
        ) + be16(d.device_bcd) + seq![
            d.device_class,
            d.device_subclass,
            d.device_protocol,
            d.configuration_value,
            d.num_configurations,
            (d.interfaces.len() % 256) as u8,
        ],
    ensures
        numbers.len() == 24,
        be32_at(numbers, 0) == d.bus_num,
        be32_at(numbers, 4) == d.dev_num,
        be32_at(numbers, 8) == d.speed,
        be16_at(numbers, 12) == d.vendor_id,
        be16_at(numbers, 14) == d.product_id,
        be16_at(numbers, 16) == d.device_bcd,
        numbers[18] == d.device_class,
        numbers[19] == d.device_subclass,
        numbers[20] == d.device_protocol,
        numbers[21] == d.configuration_value,
        numbers[22] == d.num_configurations,
        d.interfaces.len() < 256 ==> numbers[23] == d.interfaces.len(),
{
    assert(numbers.subrange(0, 4) =~= be32(d.bus_num));
    assert(numbers.subrange(4, 8) =~= be32(d.dev_num));
    assert(numbers.subrange(8, 12) =~= be32(d.speed));
    assert(numbers.subrange(12, 14) =~= be16(d.vendor_id));
    assert(numbers.subrange(14, 16) =~= be16(d.product_id));
    assert(numbers.subrange(16, 18) =~= be16(d.device_bcd));
    lemma_be32_read_back(numbers, 0, d.bus_num);
    lemma_be32_read_back(numbers, 4, d.dev_num);
    lemma_be32_read_back(numbers, 8, d.speed);
    lemma_be16_read_back(numbers, 12, d.vendor_id);
    lemma_be16_read_back(numbers, 14, d.product_id);
    lemma_be16_read_back(numbers, 16, d.device_bcd);
}

/// In a device list the device is followed by the class, subclass and protocol
/// of each of its interfaces, in order, with a zero after each.
pub proof fn law_interface_fields(d: DeviceView, i: int)
    requires
        0 <= i < d.interfaces.len(),
    ensures
        ({
            let w = d.wire_with_interfaces();
            &&& w.len() == 312 + 4 * d.interfaces.len()
            &&& w.take(312) == d.wire()
            &&& w[312 + 4 * i] == d.interfaces[i].interface_class
            &&& w[313 + 4 * i] == d.interfaces[i].interface_subclass
            &&& w[314 + 4 * i] == d.interfaces[i].interface_protocol
            &&& w[315 + 4 * i] == 0
        }),
{
    law_device_wire_length(d);
    lemma_interfaces_wire_length(d.interfaces);
    lemma_interface_at(d.interfaces, i);
    let w = d.wire_with_interfaces();
    assert(w.take(312) =~= d.wire());
}

proof fn lemma_interface_at(intfs: Seq<InterfaceView>, i: int)
    requires
        0 <= i < intfs.len(),
    ensures
        interfaces_wire(intfs).len() == 4 * intfs.len(),
        interfaces_wire(intfs)[4 * i] == intfs[i].interface_class,
        interfaces_wire(intfs)[4 * i + 1] == intfs[i].interface_subclass,
        interfaces_wire(intfs)[4 * i + 2] == intfs[i].interface_protocol,
        interfaces_wire(intfs)[4 * i + 3] == 0,
    decreases intfs.len(),
{
    lemma_interfaces_wire_length(intfs);
    lemma_interfaces_wire_length(intfs.drop_last());
    if i < intfs.len() - 1 {
        lemma_interface_at(intfs.drop_last(), i);
    }
}

/// A lookup by address finds endpoint zero first; then the first endpoint with
/// the address, interface by interface; and nothing only where no endpoint has
/// it.
pub proof fn law_endpoint_is_the_first_with_its_address(d: DeviceView, addr: u8)
    ensures
        addr == d.ep0_in.address ==> d.endpoint(addr) == Some((d.ep0_in, None::<int>)),
        addr != d.ep0_in.address && addr == d.ep0_out.address ==> d.endpoint(addr) == Some(
            (d.ep0_out, None::<int>),
        ),
        addr != d.ep0_in.address && addr != d.ep0_out.address ==> match d.endpoint(addr) {
            None => forall|i: int, j: int|
                0 <= i < d.interfaces.len() && 0 <= j < d.interfaces[i].endpoints.len() ==> (
                #[trigger] d.interfaces[i].endpoints[j]).address != addr,
            Some((ep, intf)) => {
                &&& intf is Some
                &&& 0 <= intf->0 < d.interfaces.len()
                &&& exists|j: int|
                    {
                        &&& 0 <= j < d.interfaces[intf->0].endpoints.len()
                        &&& #[trigger] d.interfaces[intf->0].endpoints[j] == ep
                        &&& ep.address == addr
                        &&& forall|k: int|
                            0 <= k < j ==> (
                            #[trigger] d.interfaces[intf->0].endpoints[k]).address != addr
                    }
                &&& forall|i: int, k: int|
                    0 <= i < intf->0 && 0 <= k < d.interfaces[i].endpoints.len() ==> (
                    #[trigger] d.interfaces[i].endpoints[k]).address != addr
            },
        },
{
    lemma_interface_endpoint_first(d.interfaces, addr);
}

proof fn lemma_endpoint_position_first(eps: Seq<UsbEndpoint>, addr: u8)
    ensures
        match endpoint_position(eps, addr) {
            None => forall|k: int| 0 <= k < eps.len() ==> (#[trigger] eps[k]).address != addr,
            Some(j) => {
                &&& 0 <= j < eps.len()
                &&& eps[j].address == addr
                &&& forall|k: int| 0 <= k < j ==> (#[trigger] eps[k]).address != addr
            },
        },
    decreases eps.len(),
{
    if eps.len() > 0 {
        let shorter = eps.drop_last();
        lemma_endpoint_position_first(shorter, addr);
        assert forall|k: int| 0 <= k < shorter.len() implies #[trigger] eps[k] == shorter[k] by {}
    }
}

proof fn lemma_interface_endpoint_first(intfs: Seq<InterfaceView>, addr: u8)
    ensures
        match interface_endpoint(intfs, addr) {
            None => forall|i: int, k: int|
                0 <= i < intfs.len() && 0 <= k < intfs[i].endpoints.len() ==> (
                #[trigger] intfs[i].endpoints[k]).address != addr,
            Some((ep, at)) => {
                &&& 0 <= at < intfs.len()
                &&& exists|j: int|
                    {
                        &&& 0 <= j < intfs[at].endpoints.len()
                        &&& #[trigger] intfs[at].endpoints[j] == ep
                        &&& ep.address == addr
                        &&& forall|k: int|
                            0 <= k < j ==> (#[trigger] intfs[at].endpoints[k]).address != addr
                    }
                &&& forall|i: int, k: int|
                    0 <= i < at && 0 <= k < intfs[i].endpoints.len() ==> (
                    #[trigger] intfs[i].endpoints[k]).address != addr
            },
        },
    decreases intfs.len(),
{
    if intfs.len() > 0 {
        let shorter = intfs.drop_last();
        lemma_interface_endpoint_first(shorter, addr);
        lemma_endpoint_position_first(intfs.last().endpoints, addr);
        assert forall|i: int| 0 <= i < shorter.len() implies #[trigger] intfs[i] == shorter[i] by {}
        match interface_endpoint(shorter, addr) {
            Some((ep, at)) => {
                let j = choose|j: int|
                    {
                        &&& 0 <= j < shorter[at].endpoints.len()
                        &&& #[trigger] shorter[at].endpoints[j] == ep
                        &&& ep.address == addr
                        &&& forall|k: int|
                            0 <= k < j ==> (#[trigger] shorter[at].endpoints[k]).address != addr
                    };
                assert(intfs[at].endpoints[j] == ep);
            },
            None => match endpoint_position(intfs.last().endpoints, addr) {
                Some(j) => {
                    let at = intfs.len() - 1;
                    assert(intfs[at].endpoints[j] == intfs.last().endpoints[j]);
                    assert forall|i: int, k: int|
                        0 <= i < at && 0 <= k < intfs[i].endpoints.len() implies (
                    #[trigger] intfs[i].endpoints[k]).address != addr by {
                        assert(shorter[i].endpoints[k].address != addr);
                    }
                },
                None => {
                    assert forall|i: int, k: int|
                        0 <= i < intfs.len() && 0 <= k < intfs[i].endpoints.len() implies (
                    #[trigger] intfs[i].endpoints[k]).address != addr by {
                        if i < shorter.len() {
                            assert(shorter[i].endpoints[k].address != addr);
                        }
                    }
                },
            },
        }
    }
}

/// The `devid` of a device has its bus number in the upper half and its device
/// number in the lower one.
pub proof fn law_devid_holds_both_numbers(d: DeviceView)
    requires
        d.bus_num <= 0xffff,
        d.dev_num <= 0xffff,
    ensures
        d.devid() == d.bus_num * 0x1_0000 + d.dev_num,
{
    let bus = d.bus_num;
    let dev = d.dev_num;
    assert((bus << 16u32) | dev == bus * 0x1_0000 + dev) by (bit_vector)
        requires
            bus <= 0xffff,
            dev <= 0xffff,
    ;
}

/// The numbers of the speeds.
pub proof fn law_speed_numbers()
    ensures
        UsbSpeed::Unknown.code() == 0,
        UsbSpeed::Low.code() == 1,
        UsbSpeed::Full.code() == 2,
        UsbSpeed::High.code() == 3,
        UsbSpeed::Wireless.code() == 4,
        UsbSpeed::Super.code() == 5,
        UsbSpeed::SuperPlus.code() == 6,
{
}

/// A setup packet holds its request in the first two bytes, and three numbers
/// after them, each with its lower byte first.
pub proof fn law_setup_packet_fields(s: Seq<u8>)
    ensures
        setup_of(s).request_type == s[0],
        setup_of(s).request == s[1],
        setup_of(s).value == s[2] + 0x100 * s[3],
        setup_of(s).index == s[4] + 0x100 * s[5],
        setup_of(s).length == s[6] + 0x100 * s[7],
{
}

/// A device that describes nothing has no names, interfaces or strings, and
/// its bytes are all zero.
pub proof fn law_blank_device_is_blank(i: int)
    requires
        0 <= i < 312,
    ensures
        blank_device().wire()[i] == 0,
        blank_device().path.len() == 0,
        blank_device().bus_id.len() == 0,
        blank_device().ep0_in.address == 0,
        blank_device().ep0_in.attributes == 0,
        blank_device().ep0_in.max_packet_size == 0,
        blank_device().ep0_in.interval == 0,
        blank_device().ep0_out.address == 0,
        blank_device().ep0_out.attributes == 0,
        blank_device().ep0_out.max_packet_size == 0,
        blank_device().ep0_out.interval == 0,
        blank_device().interfaces.len() == 0,
        blank_device().string_pool.len() == 0,
        blank_device().string_manufacturer == 0,
        blank_device().string_product == 0,
        blank_device().string_serial == 0,
        blank_device().usb_version == 0,
        blank_device().device_handler is None,
        blank_device().host_runtime is None,
{
    let d = blank_device();
    let path = fixed(vstd::utf8::encode_utf8(d.path), 256);
    let bus_id = fixed(vstd::utf8::encode_utf8(d.bus_id), 32);
    assert(vstd::utf8::encode_utf8(d.path).len() == 0);
    assert(vstd::utf8::encode_utf8(d.bus_id).len() == 0);
    assert(forall|k: int| 0 <= k < 256 ==> #[trigger] path[k] == 0);
    assert(forall|k: int| 0 <= k < 32 ==> #[trigger] bus_id[k] == 0);
}

/// The model of a device has what the device has, field by field.
pub proof fn law_device_models(d: UsbDevice, i: int)
    ensures
        d@.path == d.path@,
        d@.bus_id == d.bus_id@,
        d@.bus_num == d.bus_num,
        d@.dev_num == d.dev_num,
        d@.speed == d.speed,
        d@.vendor_id == d.vendor_id,
        d@.product_id == d.product_id,
        d@.device_bcd == d.device_bcd,
        d@.device_class == d.device_class,
        d@.device_subclass == d.device_subclass,
        d@.device_protocol == d.device_protocol,
        d@.configuration_value == d.configuration_value,
        d@.num_configurations == d.num_configurations,
        d@.ep0_in == d.ep0_in,
        d@.ep0_out == d.ep0_out,
        d@.usb_version == d.usb_version,
        d@.string_manufacturer == d.string_manufacturer,
        d@.string_product == d.string_product,
        d@.string_serial == d.string_serial,
        d@.device_handler == d.device_handler,
        d@.host_runtime == d.host_runtime,
        d@.interfaces.len() == d.interfaces@.len(),
        0 <= i < d.interfaces@.len() ==> d@.interfaces[i] == d.interfaces@[i]@,
        d@.string_pool.len() == d.string_pool@.len(),
        0 <= i < d.string_pool@.len() ==> d@.string_pool[i] == d.string_pool@[i]@,
{
}

/// The model of an interface has what the interface has, field by field.
pub proof fn law_interface_models(intf: UsbInterface)
    ensures
        intf@.interface_class == intf.interface_class,
        intf@.interface_subclass == intf.interface_subclass,
        intf@.interface_protocol == intf.interface_protocol,
        intf@.endpoints == intf.endpoints@,
        intf@.string_interface == intf.string_interface,
        intf@.class_specific_descriptor == intf.class_specific_descriptor@,
{
}

/// The models of many are those of each, in order.
pub proof fn law_models_of_many(
    devices: Seq<UsbDevice>,
    interfaces: Seq<UsbInterface>,
    strings: Seq<String>,
    i: int,
)
    ensures
        device_views(devices).len() == devices.len(),
        0 <= i < devices.len() ==> device_views(devices)[i] == devices[i]@,
        interface_views(interfaces).len() == interfaces.len(),
        0 <= i < interfaces.len() ==> interface_views(interfaces)[i] == interfaces[i]@,
        string_views(strings).len() == strings.len(),
        0 <= i < strings.len() ==> string_views(strings)[i] == strings[i]@,
{
}

} // verus!
