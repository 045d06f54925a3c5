//! Physical devices: how the server describes them, and how it finds one again
//! that has re-enumerated.

use vstd::prelude::*;
use vstd::string::StringExecFns;
use vstd::utf8::{encode_utf8, is_ascii_chars, is_ascii_chars_encode_utf8};

use crate::device::{
    blank_device, interface_views, DeviceView, InterfaceView, UsbDevice, UsbEndpoint, UsbInterface,
    ENDPOINT_CONTROL,
};
use crate::error::ErrorKind;
use crate::text::{decimal, put_decimal, str_eq, upper_digits};

verus! {

/// The port of a device whose port is not known.
pub const UNKNOWN_PORT: u8 = 0;

/// The packet size of endpoint zero of a device that does not tell it.
pub const DEFAULT_EP0_PACKET_SIZE: u16 = 16;

/// What the descriptors of a physical device say.
#[derive(Clone, Copy, Debug)]
pub struct HostDescriptor {
    pub bus_number: u32,
    /// The address on the bus. It changes with every enumeration.
    pub address: u8,
    /// The port of the hub.
    pub port_number: u8,
    /// The speed as USB/IP numbers it.
    pub speed: u32,
    pub vendor_id: u16,
    pub product_id: u16,
    pub device_class: u8,
    pub device_subclass: u8,
    pub device_protocol: u8,
    /// The version of the device, in binary-coded decimal.
    pub device_version: u16,
    /// The version of USB, in binary-coded decimal.
    pub usb_version: u16,
    /// The number of the active configuration.
    pub configuration_value: u8,
    pub num_configurations: u8,
    /// The packet size of endpoint zero.
    pub max_packet_size: u16,
}

/// The strings of a device that could be read.
#[derive(Debug)]
pub struct HostStrings {
    pub manufacturer: Option<String>,
    pub product: Option<String>,
    pub serial: Option<String>,
}

/// The string pool once `s` was added, if there is such a string.
pub open spec fn with_string(pool: Seq<Seq<char>>, s: Option<String>) -> Seq<Seq<char>> {
    match s {
        Some(s) => pool.push(s@),
        None => pool,
    }
}

/// The index of the last string of a pool, if it was added for `s`.
pub open spec fn string_index(pool: Seq<Seq<char>>, s: Option<String>) -> u8 {
    match s {
        Some(_) => pool.len() as u8,
        None => 0,
    }
}

/// The bus id of a device: its bus, its address and its port.
pub open spec fn host_bus_id(bus_number: u32, address: u8, port_number: u8) -> Seq<char> {
    decimal(bus_number as nat) + "-"@ + decimal(address as nat) + "-"@ + decimal(
        port_number as nat,
    )
}

/// The path of a device.
pub open spec fn host_path(bus_number: u32, address: u8, port_number: u8) -> Seq<char> {
    "/sys/bus/"@ + decimal(bus_number as nat) + "/"@ + decimal(address as nat) + "/"@ + decimal(
        port_number as nat,
    )
}

/// Endpoint zero in one direction.
pub open spec fn control_endpoint(address: u8, max_packet_size: u16) -> UsbEndpoint {
    UsbEndpoint { address, attributes: ENDPOINT_CONTROL, max_packet_size, interval: 0 }
}

impl HostDescriptor {
    /// The device as the server shares it.
    pub open spec fn device(
        self,
        interfaces: Seq<InterfaceView>,
        strings: HostStrings,
        device_handler: Option<u64>,
        host_runtime: Option<u64>,
    ) -> DeviceView {
        let pool1 = with_string(seq![], strings.manufacturer);
        let pool2 = with_string(pool1, strings.product);
        let pool3 = with_string(pool2, strings.serial);
        DeviceView {
            path: host_path(self.bus_number, self.address, self.port_number),
            bus_id: host_bus_id(self.bus_number, self.address, self.port_number),
            bus_num: self.bus_number,
            dev_num: self.address as u32,
            speed: self.speed,
            vendor_id: self.vendor_id,
            product_id: self.product_id,
            device_bcd: self.device_version,
            device_class: self.device_class,
            device_subclass: self.device_subclass,
            device_protocol: self.device_protocol,
            configuration_value: self.configuration_value,
            num_configurations: self.num_configurations,
            ep0_in: control_endpoint(0x80, self.max_packet_size),
            ep0_out: control_endpoint(0x00, self.max_packet_size),
            interfaces,
            usb_version: self.usb_version,
            string_pool: pool3,
            string_manufacturer: string_index(pool1, strings.manufacturer),
            string_product: string_index(pool2, strings.product),
            string_serial: string_index(pool3, strings.serial),
            device_handler,
            host_runtime,
        }
    }

    /// The device as the server shares it. The strings that could be read are
    /// numbered in the order manufacturer, product, serial number.
    pub fn describe(
        &self,
        interfaces: Vec<UsbInterface>,
        strings: HostStrings,
        device_handler: Option<u64>,
        host_runtime: Option<u64>,
    ) -> (r: UsbDevice)
        ensures
            r@ == self.device(
                interface_views(interfaces@),
                strings,
                device_handler,
                host_runtime,
            ),
    {
        let mut device = UsbDevice::default();
        device.path = self.path();
        device.bus_id = self.bus_id();
        device.bus_num = self.bus_number;
        device.dev_num = self.address as u32;
        device.speed = self.speed;
        device.vendor_id = self.vendor_id;
        device.product_id = self.product_id;
        device.device_bcd = self.device_version;
        device.device_class = self.device_class;
        device.device_subclass = self.device_subclass;
        device.device_protocol = self.device_protocol;
        device.configuration_value = self.configuration_value;
        device.num_configurations = self.num_configurations;
        device.ep0_in = UsbEndpoint {
            address: 0x80,
            attributes: ENDPOINT_CONTROL,
            max_packet_size: self.max_packet_size,
            interval: 0,
        };
        device.ep0_out = UsbEndpoint {
            address: 0x00,
            attributes: ENDPOINT_CONTROL,
            max_packet_size: self.max_packet_size,
            interval: 0,
        };
        device.interfaces = interfaces;
        device.usb_version = self.usb_version;
        device.device_handler = device_handler;
        device.host_runtime = host_runtime;
        assert(device@.string_pool == blank_device().string_pool);
        match &strings.manufacturer {
            Some(s) => {
                let index: u8 = device.new_string(s.as_str());
                device.string_manufacturer = index;
            },
            None => {},
        }
        match &strings.product {
            Some(s) => {
                let index: u8 = device.new_string(s.as_str());
                device.string_product = index;
            },
            None => {},
        }
        match &strings.serial {
            Some(s) => {
                let index: u8 = device.new_string(s.as_str());
                device.string_serial = index;
            },
            None => {},
        }
        assert(device@ =~= self.device(
            interface_views(interfaces@),
            strings,
            device_handler,
            host_runtime,
        ));
        device
    }

    fn bus_id(&self) -> (r: String)
        ensures
            r@ == host_bus_id(self.bus_number, self.address, self.port_number),
    {
        let mut r = String::new();
        put_decimal(&mut r, self.bus_number);
        r.append("-");
        put_decimal(&mut r, self.address as u32);
        r.append("-");
        put_decimal(&mut r, self.port_number as u32);
        assert(r@ =~= host_bus_id(self.bus_number, self.address, self.port_number));
        r
    }

    fn path(&self) -> (r: String)
        ensures
            r@ == host_path(self.bus_number, self.address, self.port_number),
    {
        let mut r = String::new();
        r.append("/sys/bus/");
        put_decimal(&mut r, self.bus_number);
        r.append("/");
        put_decimal(&mut r, self.address as u32);
        r.append("/");
        put_decimal(&mut r, self.port_number as u32);
        assert(r@ =~= host_path(self.bus_number, self.address, self.port_number));
        r
    }
}

/// A version as descriptors hold it, in binary-coded decimal: two digits, then
/// one each.
pub open spec fn bcd_version(major: u8, minor: u8, sub_minor: u8) -> int {
    (((major / 10) * 0x1000 + (major % 10) * 0x100 + minor * 0x10 + sub_minor) % 0x1_0000) as int
}

/// A version as descriptors hold it, in binary-coded decimal.
pub fn version_to_bcd(major: u8, minor: u8, sub_minor: u8) -> (r: u16)
    ensures
        r == bcd_version(major, minor, sub_minor),
{
    let sum: u32 = (major / 10) as u32 * 0x1000 + (major % 10) as u32 * 0x100 + minor as u32 * 0x10
        + sub_minor as u32;
    (sum % 0x1_0000) as u16
}

/// The interfaces of a device that the server takes hold of, one after the
/// other. Unless it gets all of them, the device is not shared.
#[derive(Debug)]
pub struct InterfaceClaims {
    interfaces: Vec<UsbInterface>,
    numbers: Vec<u8>,
    refused: bool,
}

/// What an [`InterfaceClaims`] holds.
#[verifier::ext_equal]
pub struct ClaimsView {
    pub interfaces: Seq<InterfaceView>,
    pub numbers: Seq<u8>,
    pub refused: bool,
}

impl View for InterfaceClaims {
    type V = ClaimsView;

    closed spec fn view(&self) -> ClaimsView {
        ClaimsView {
            interfaces: interface_views(self.interfaces@),
            numbers: self.numbers@,
            refused: self.refused,
        }
    }
}

impl InterfaceClaims {
    pub fn new() -> (r: Self)
        ensures
            r@ == (ClaimsView { interfaces: seq![], numbers: seq![], refused: false }),
            r@.valid(),
    {
        let r = InterfaceClaims { interfaces: Vec::new(), numbers: Vec::new(), refused: false };
        assert(r@ =~= ClaimsView { interfaces: seq![], numbers: seq![], refused: false });
        r
    }

    /// The interface with this number was claimed.
    pub fn claimed(&mut self, number: u8, interface: UsbInterface)
        requires
            old(self)@.valid(),
            !old(self)@.refused,
        ensures
            final(self)@.valid(),
            final(self)@ == (ClaimsView {
                interfaces: old(self)@.interfaces.push(interface@),
                numbers: old(self)@.numbers.push(number),
                refused: old(self)@.refused,
            }),
    {
        self.interfaces.push(interface);
        self.numbers.push(number);
        assert(self@ =~= ClaimsView {
            interfaces: old(self)@.interfaces.push(interface@),
            numbers: old(self)@.numbers.push(number),
            refused: old(self)@.refused,
        });
    }

    /// An interface could not be claimed: none is left to be shared.
    pub fn refuse(&mut self)
        ensures
            final(self)@.valid(),
            final(self)@ == (ClaimsView {
                interfaces: seq![],
                refused: true,
                ..old(self)@
            }),
    {
        self.interfaces = Vec::new();
        self.refused = true;
        assert(self@.interfaces =~= seq![]);
    }

    /// The interfaces and their numbers, if the device is to be shared.
    pub fn finish(self) -> (r: Option<(Vec<UsbInterface>, Vec<u8>)>)
        requires
            self@.valid(),
        ensures
            r is None <==> self@.refused || self@.interfaces.len() == 0,
            r matches Some((interfaces, numbers)) ==> interface_views(interfaces@)
                == self@.interfaces && numbers@ == self@.numbers,
    {
        if self.interfaces.len() == 0 {
            None
        } else {
            Some((self.interfaces, self.numbers))
        }
    }
}

impl ClaimsView {
    /// Nothing is left of a device once an interface was refused. Until that
    /// each interface has its number.
    pub open spec fn valid(self) -> bool {
        if self.refused {
            self.interfaces.len() == 0
        } else {
            self.interfaces.len() == self.numbers.len()
        }
    }
}

/// The addresses of the endpoints of an interface.
pub open spec fn addresses(eps: Seq<UsbEndpoint>) -> Seq<u8> {
    eps.map_values(|ep: UsbEndpoint| ep.address)
}

/// The addresses of the endpoints of all interfaces, in order.
pub open spec fn all_addresses(intfs: Seq<InterfaceView>) -> Seq<u8>
    decreases intfs.len(),
{
    if intfs.len() == 0 {
        seq![]
    } else {
        all_addresses(intfs.drop_last()) + addresses(intfs.last().endpoints)
    }
}

impl UsbDevice {
    /// The addresses of the endpoints of all interfaces, in order. On each of
    /// them one transfer is in flight at a time.
    pub fn endpoint_addresses(&self) -> (r: Vec<u8>)
        ensures
            r@ == all_addresses(self@.interfaces),
    {
        let ghost intfs = self@.interfaces;
        let mut r: Vec<u8> = Vec::new();
        let mut i: usize = 0;
        while i < self.interfaces.len()
            invariant
                i <= self.interfaces@.len(),
                intfs == self@.interfaces,
                r@ == all_addresses(intfs.take(i as int)),
            decreases self.interfaces@.len() - i,
        {
            let eps = &self.interfaces[i].endpoints;
            let ghost before = r@;
            let mut j: usize = 0;
            while j < eps.len()
                invariant
                    j <= eps@.len(),
                    r@ == before + addresses(eps@.take(j as int)),
                decreases eps@.len() - j,
            {
                r.push(eps[j].address);
                j += 1;
                assert(addresses(eps@.take(j as int)) =~= addresses(eps@.take(j - 1)).push(
                    eps@[j - 1].address,
                ));
            }
            assert(eps@.take(j as int) =~= intfs[i as int].endpoints);
            assert(intfs.take(i + 1).drop_last() =~= intfs.take(i as int));
            i += 1;
        }
        assert(intfs.take(i as int) =~= intfs);
        r
    }
}

/// What stays the same of a device when it re-enumerates.
#[derive(Debug)]
pub struct HostIdentity {
    pub vendor_id: u16,
    pub product_id: u16,
    /// Empty if the device has none.
    pub serial: String,
    /// The interfaces that the server takes hold of.
    pub interfaces: Vec<u8>,
}

impl HostIdentity {
    /// Whether a device may be the one, as far as its descriptor tells. One
    /// with a serial number may have changed its product id.
    pub open spec fn may_be(self, vendor_id: u16, product_id: u16) -> bool {
        vendor_id == self.vendor_id && (self.serial@.len() > 0 || product_id == self.product_id)
    }
}

/// What is found out about a device while the one that is gone is looked for.
#[derive(Debug)]
pub enum SearchEvent {
    /// The next device, with its vendor and product id.
    Device(u16, u16),
    /// The descriptor of the next device could not be read.
    DescriptorFailed,
    /// There are no more devices.
    NoMoreDevices,
    /// The device could be opened, and gave this serial number.
    Serial(String),
    /// The device could be opened, and has no serial number.
    NoSerial,
    /// The device could not be opened, or its serial number could not be read.
    Unreadable,
    /// The interface could be claimed.
    Claimed,
    /// The interface could not be claimed.
    NotClaimed,
}

/// What a [`SearchEvent`] says.
#[verifier::ext_equal]
pub enum SearchEventView {
    Device(u16, u16),
    DescriptorFailed,
    NoMoreDevices,
    Serial(Seq<char>),
    NoSerial,
    Unreadable,
    Claimed,
    NotClaimed,
}

impl View for SearchEvent {
    type V = SearchEventView;

    open spec fn view(&self) -> SearchEventView {
        match self {
            SearchEvent::Device(v, p) => SearchEventView::Device(*v, *p),
            SearchEvent::DescriptorFailed => SearchEventView::DescriptorFailed,
            SearchEvent::NoMoreDevices => SearchEventView::NoMoreDevices,
            SearchEvent::Serial(s) => SearchEventView::Serial(s@),
            SearchEvent::NoSerial => SearchEventView::NoSerial,
            SearchEvent::Unreadable => SearchEventView::Unreadable,
            SearchEvent::Claimed => SearchEventView::Claimed,
            SearchEvent::NotClaimed => SearchEventView::NotClaimed,
        }
    }
}

/// What to do next in the search for a device.
#[derive(Clone, Copy, Debug, PartialEq, Eq, Structural)]
pub enum SearchAction {
    /// Look at the next device.
    Next,
    /// Open the device and read its serial number.
    ReadSerial,
    /// Claim this interface of the device.
    Claim(u8),
    /// The device is the one that was looked for.
    Use,
    /// Give up.
    Fail(ErrorKind),
}

/// How far the search has come with one device.
#[derive(Clone, Copy, Debug, PartialEq, Eq, Structural)]
pub enum SearchStage {
    /// Its descriptor is not known yet.
    Unknown,
    /// Its descriptor fits.
    Fits,
    /// It is the right one, and so many interfaces were claimed.
    Recognized(usize),
}

/// What to do once `claimed` interfaces of the right device were claimed.
pub open spec fn claim_next(identity: HostIdentity, claimed: int) -> (SearchStage, SearchAction) {
    if claimed < identity.interfaces@.len() {
        (
            SearchStage::Recognized(claimed as usize),
            SearchAction::Claim(identity.interfaces@[claimed]),
        )
    } else {
        (SearchStage::Unknown, SearchAction::Use)
    }
}

/// What becomes of the search, and what to do next, when `e` is found out.
pub open spec fn search_step(identity: HostIdentity, stage: SearchStage, e: SearchEventView) -> (
    SearchStage,
    SearchAction,
) {
    match (stage, e) {
        (_, SearchEventView::DescriptorFailed) => (
            SearchStage::Unknown,
            SearchAction::Fail(ErrorKind::Other),
        ),
        (_, SearchEventView::NoMoreDevices) => (
            SearchStage::Unknown,
            SearchAction::Fail(ErrorKind::NotFound),
        ),
        (SearchStage::Unknown, SearchEventView::Device(vendor_id, product_id)) => if identity.may_be(
            vendor_id,
            product_id,
        ) {
            (SearchStage::Fits, SearchAction::ReadSerial)
        } else {
            (SearchStage::Unknown, SearchAction::Next)
        },
        (SearchStage::Fits, SearchEventView::Serial(serial)) => if serial == identity.serial@ {
            claim_next(identity, 0)
        } else {
            (SearchStage::Unknown, SearchAction::Next)
        },
        (SearchStage::Fits, SearchEventView::NoSerial) => if identity.serial@.len() == 0 {
            claim_next(identity, 0)
        } else {
            (SearchStage::Unknown, SearchAction::Next)
        },
        (SearchStage::Recognized(claimed), SearchEventView::Claimed) => claim_next(
            identity,
            claimed + 1,
        ),
        _ => (SearchStage::Unknown, SearchAction::Next),
    }
}

/// A search for a device that has re-enumerated.
#[derive(Debug)]
pub struct Search {
    identity: HostIdentity,
    stage: SearchStage,
}

impl Search {
    pub closed spec fn identity(self) -> HostIdentity {
        self.identity
    }

    pub closed spec fn stage(self) -> SearchStage {
        self.stage
    }

    /// No more interfaces were claimed than the device has.
    pub open spec fn wf(self) -> bool {
        self.stage() matches SearchStage::Recognized(n) ==> n < self.identity().interfaces@.len()
    }

    pub fn new(identity: HostIdentity) -> (r: Self)
        ensures
            r.identity() == identity,
            r.stage() == SearchStage::Unknown,
            r.wf(),
    {
        Search { identity, stage: SearchStage::Unknown }
    }

    /// Takes note of what was found out and says what to do next.
    pub fn step(&mut self, event: SearchEvent) -> (action: SearchAction)
        requires
            old(self).wf(),
        ensures
            final(self).identity() == old(self).identity(),
            (final(self).stage(), action) == search_step(
                old(self).identity(),
                old(self).stage(),
                event@,
            ),
            final(self).wf(),
    {
        let stage = self.stage;
        self.stage = SearchStage::Unknown;
        assert(self.identity.interfaces.len() == self.identity.interfaces@.len());
        match event {
            SearchEvent::DescriptorFailed => SearchAction::Fail(ErrorKind::Other),
            SearchEvent::NoMoreDevices => SearchAction::Fail(ErrorKind::NotFound),
            SearchEvent::Device(vendor_id, product_id) => match stage {
                SearchStage::Unknown => {
                    if vendor_id == self.identity.vendor_id && (!self.no_serial() || product_id
                        == self.identity.product_id) {
                        self.stage = SearchStage::Fits;
                        SearchAction::ReadSerial
                    } else {
                        SearchAction::Next
                    }
                },
                _ => SearchAction::Next,
            },
            SearchEvent::Serial(serial) => match stage {
                SearchStage::Fits => {
                    if str_eq(serial.as_str(), self.identity.serial.as_str()) {
                        self.claim(0)
                    } else {
                        SearchAction::Next
                    }
                },
                _ => SearchAction::Next,
            },
            SearchEvent::NoSerial => match stage {
                SearchStage::Fits => {
                    if self.no_serial() {
                        self.claim(0)
                    } else {
                        SearchAction::Next
                    }
                },
                _ => SearchAction::Next,
            },
            SearchEvent::Claimed => match stage {
                SearchStage::Recognized(claimed) => self.claim(claimed + 1),
                _ => SearchAction::Next,
            },
            SearchEvent::Unreadable => SearchAction::Next,
            SearchEvent::NotClaimed => SearchAction::Next,
        }
    }

    fn no_serial(&self) -> (r: bool)
        ensures
            r == (self.identity().serial@.len() == 0),
    {
        proof {
            reveal_strlit("");
        }
        let r = str_eq(self.identity.serial.as_str(), "");
        assert(self.identity.serial@.len() == 0 ==> self.identity.serial@ =~= ""@);
        r
    }

    fn claim(&mut self, claimed: usize) -> (action: SearchAction)
        requires
            old(self).stage() == SearchStage::Unknown,
            claimed <= old(self).identity().interfaces@.len(),
        ensures
            final(self).identity() == old(self).identity(),
            (final(self).stage(), action) == claim_next(old(self).identity(), claimed as int),
            final(self).wf(),
    {
        if claimed < self.identity.interfaces.len() {
            self.stage = SearchStage::Recognized(claimed);
            SearchAction::Claim(self.identity.interfaces[claimed])
        } else {
            SearchAction::Use
        }
    }
}

/// What to do after the right device was recognized and `n` of its interfaces
/// were claimed one after the other.
pub open spec fn after_claims(identity: HostIdentity, n: nat) -> (SearchStage, SearchAction)
    decreases n,
{
    if n == 0 {
        claim_next(identity, 0)
    } else {
        search_step(
            identity,
            after_claims(identity, (n - 1) as nat).0,
            SearchEventView::Claimed,
        )
    }
}

/// The interfaces of the right device are claimed in order, each once, and the
/// device is used when all of them were.
pub proof fn law_search_claims_every_interface(identity: HostIdentity, n: nat)
    requires
        n <= identity.interfaces@.len(),
        identity.interfaces@.len() <= usize::MAX,
    ensures
        after_claims(identity, n).1 == (if n < identity.interfaces@.len() {
            SearchAction::Claim(identity.interfaces@[n as int])
        } else {
            SearchAction::Use
        }),
        n < identity.interfaces@.len() ==> after_claims(identity, n).0
            == SearchStage::Recognized(n as usize),
    decreases n,
{
    if n > 0 {
        law_search_claims_every_interface(identity, (n - 1) as nat);
    }
}

/// A device with a serial number is recognized by it, whatever its product id
/// has become.
pub proof fn law_search_finds_a_device_by_its_serial_number(
    identity: HostIdentity,
    product_id: u16,
)
    requires
        identity.serial@.len() > 0,
    ensures
        search_step(
            identity,
            SearchStage::Unknown,
            SearchEventView::Device(identity.vendor_id, product_id),
        ) == (SearchStage::Fits, SearchAction::ReadSerial),
        search_step(
            identity,
            SearchStage::Fits,
            SearchEventView::Serial(identity.serial@),
        ) == after_claims(identity, 0),
{
}

/// A device without a serial number is recognized by its vendor and product
/// id: its first interface is claimed, or it is used where it has none.
pub proof fn law_search_finds_a_device_without_a_serial_number(identity: HostIdentity)
    requires
        identity.serial@.len() == 0,
    ensures
        search_step(
            identity,
            SearchStage::Unknown,
            SearchEventView::Device(identity.vendor_id, identity.product_id),
        ) == (SearchStage::Fits, SearchAction::ReadSerial),
        search_step(identity, SearchStage::Fits, SearchEventView::NoSerial) == after_claims(
            identity,
            0,
        ),
        after_claims(identity, 0).1 == (if identity.interfaces@.len() > 0 {
            SearchAction::Claim(identity.interfaces@[0])
        } else {
            SearchAction::Use
        }),
{
}

/// A device is opened only if its descriptor fits, and claimed or used only if
/// it gave the serial number that was looked for, or has none like the one
/// that was looked for; any other one is passed over.
pub proof fn law_search_takes_no_other_device(
    identity: HostIdentity,
    stage: SearchStage,
    e: SearchEventView,
)
    ensures
        ({
            let (next, action) = search_step(identity, stage, e);
            &&& action is ReadSerial ==> (e matches SearchEventView::Device(v, p)
                && identity.may_be(v, p))
            &&& action is Claim || action is Use ==> {
                ||| stage is Fits && e == SearchEventView::Serial(identity.serial@)
                ||| stage is Fits && e is NoSerial && identity.serial@.len() == 0
                ||| stage is Recognized && e is Claimed
            }
            &&& next is Fits ==> action is ReadSerial
            &&& next is Recognized ==> action is Claim
        }),
{
}

proof fn lemma_decimal_digits(n: nat)
    ensures
        decimal(n).len() > 0,
        forall|i: int|
            0 <= i < decimal(n).len() ==> '0' <= #[trigger] decimal(n)[i] && decimal(n)[i] <= '9',
    decreases n,
{
    if n >= 10 {
        lemma_decimal_digits(n / 10);
    }
}

proof fn lemma_decimal_length(n: nat, digits: nat, limit: nat)
    requires
        digits > 0,
        n < limit,
        limit == vstd::arithmetic::power::pow(10, digits),
    ensures
        decimal(n).len() <= digits,
    decreases digits,
{
    reveal(vstd::arithmetic::power::pow);
    if n >= 10 {
        let shorter = vstd::arithmetic::power::pow(10, (digits - 1) as nat) as nat;
        assert(digits > 1);
        assert(limit == 10 * shorter);
        lemma_decimal_length(n / 10, (digits - 1) as nat, shorter);
    }
}

proof fn lemma_decimal_injective(a: nat, b: nat)
    requires
        decimal(a) == decimal(b),
    ensures
        a == b,
    decreases a,
{
    lemma_decimal_digits(a / 10);
    lemma_decimal_digits(b / 10);
    assert(decimal(a).last() == decimal(b).last());
    assert(a % 10 == b % 10) by {
        assert(upper_digits()[(a % 10) as int] == decimal(a).last());
        assert(upper_digits()[(b % 10) as int] == decimal(b).last());
    }
    assert(a < 10 <==> decimal(a).len() == 1);
    assert(b < 10 <==> decimal(b).len() == 1);
    if a >= 10 && b >= 10 {
        assert(decimal(a / 10) =~= decimal(a).drop_last());
        assert(decimal(b / 10) =~= decimal(b).drop_last());
        lemma_decimal_injective(a / 10, b / 10);
    }
}

proof fn lemma_split_at_dash(a: Seq<char>, x: Seq<char>, b: Seq<char>, y: Seq<char>)
    requires
        a + seq!['-'] + x == b + seq!['-'] + y,
        forall|i: int| 0 <= i < a.len() ==> a[i] != '-',
        forall|i: int| 0 <= i < b.len() ==> b[i] != '-',
    ensures
        a == b,
        x == y,
{
    let s = a + seq!['-'] + x;
    assert(s[a.len() as int] == '-');
    assert(s[b.len() as int] == '-');
    if a.len() < b.len() {
        assert(s[a.len() as int] == b[a.len() as int]);
    }
    if b.len() < a.len() {
        assert(s[b.len() as int] == a[b.len() as int]);
    }
    assert(a =~= s.take(a.len() as int));
    assert(b =~= s.take(a.len() as int));
    assert(x =~= s.skip(a.len() as int + 1));
    assert(y =~= s.skip(a.len() as int + 1));
}

/// Two physical devices with the same bus id are on the same bus, at the same
/// address and on the same port.
pub proof fn law_host_bus_ids_are_distinct(
    bus1: u32,
    address1: u8,
    port1: u8,
    bus2: u32,
    address2: u8,
    port2: u8,
)
    requires
        host_bus_id(bus1, address1, port1) == host_bus_id(bus2, address2, port2),
    ensures
        bus1 == bus2,
        address1 == address2,
        port1 == port2,
{
    reveal_strlit("-");
    assert("-"@ =~= seq!['-']);
    let tail1 = decimal(address1 as nat) + seq!['-'] + decimal(port1 as nat);
    let tail2 = decimal(address2 as nat) + seq!['-'] + decimal(port2 as nat);
    assert(host_bus_id(bus1, address1, port1) =~= decimal(bus1 as nat) + seq!['-'] + tail1);
    assert(host_bus_id(bus2, address2, port2) =~= decimal(bus2 as nat) + seq!['-'] + tail2);
    lemma_decimal_digits(bus1 as nat);
    lemma_decimal_digits(bus2 as nat);
    lemma_decimal_digits(address1 as nat);
    lemma_decimal_digits(address2 as nat);
    lemma_split_at_dash(decimal(bus1 as nat), tail1, decimal(bus2 as nat), tail2);
    lemma_split_at_dash(
        decimal(address1 as nat),
        decimal(port1 as nat),
        decimal(address2 as nat),
        decimal(port2 as nat),
    );
    lemma_decimal_injective(bus1 as nat, bus2 as nat);
    lemma_decimal_injective(address1 as nat, address2 as nat);
    lemma_decimal_injective(port1 as nat, port2 as nat);
}

/// The bus id of a physical device fits in the field of the protocol and holds
/// no zero, so the client can name the device by it.
pub proof fn law_host_bus_id_fits(bus_number: u32, address: u8, port_number: u8)
    ensures
        ({
            let name = encode_utf8(host_bus_id(bus_number, address, port_number));
            &&& name.len() <= 32
            &&& forall|i: int| 0 <= i < name.len() ==> name[i] != 0
        }),
{
    reveal_strlit("-");
    let id = host_bus_id(bus_number, address, port_number);
    lemma_decimal_digits(bus_number as nat);
    lemma_decimal_digits(address as nat);
    lemma_decimal_digits(port_number as nat);
    assert(vstd::arithmetic::power::pow(10, 10) == 10_000_000_000 && vstd::arithmetic::power::pow(
        10,
        3,
    ) == 1000) by {
        reveal_with_fuel(vstd::arithmetic::power::pow, 11);
    }
    lemma_decimal_length(bus_number as nat, 10, 10_000_000_000);
    lemma_decimal_length(address as nat, 3, 1000);
    lemma_decimal_length(port_number as nat, 3, 1000);
    assert(forall|i: int| 0 <= i < id.len() ==> '-' <= #[trigger] id[i] && id[i] <= '9');
    assert(is_ascii_chars(id));
    is_ascii_chars_encode_utf8(id);
}

/// A shared device is named by its bus, address and port, has the bus as its
/// bus number and the address as its device number, and carries the numbers of
/// its descriptors each in its own field. Endpoint zero is a control endpoint
/// with the packet size of the device, at 0x80 and at 0x00.
pub proof fn law_shared_devices_have_what_their_descriptors_say(
    h: HostDescriptor,
    interfaces: Seq<InterfaceView>,
    strings: HostStrings,
    device_handler: Option<u64>,
    host_runtime: Option<u64>,
)
    ensures
        ({
            let d = h.device(interfaces, strings, device_handler, host_runtime);
            &&& d.path == "/sys/bus/"@ + decimal(h.bus_number as nat) + "/"@ + decimal(
                h.address as nat,
            ) + "/"@ + decimal(h.port_number as nat)
            &&& d.bus_id == decimal(h.bus_number as nat) + "-"@ + decimal(h.address as nat) + "-"@
                + decimal(h.port_number as nat)
            &&& d.bus_num == h.bus_number
            &&& d.dev_num == h.address
            &&& d.speed == h.speed
            &&& d.vendor_id == h.vendor_id
            &&& d.product_id == h.product_id
            &&& d.device_bcd == h.device_version
            &&& d.usb_version == h.usb_version
            &&& d.device_class == h.device_class
            &&& d.device_subclass == h.device_subclass
            &&& d.device_protocol == h.device_protocol
            &&& d.configuration_value == h.configuration_value
            &&& d.num_configurations == h.num_configurations
            &&& d.interfaces == interfaces
            &&& d.device_handler == device_handler
            &&& d.host_runtime == host_runtime
            &&& d.ep0_in.address == 0x80
            &&& d.ep0_out.address == 0
            &&& d.ep0_in.attributes == 0 && d.ep0_out.attributes == 0
            &&& d.ep0_in.max_packet_size == h.max_packet_size
            &&& d.ep0_out.max_packet_size == h.max_packet_size
            &&& d.ep0_in.interval == 0 && d.ep0_out.interval == 0
        }),
{
}

/// The index of a string of a shared device leads to that string; a string that
/// could not be read has index zero and takes no place. The strings stand in
/// the order manufacturer, product, serial number.
pub proof fn law_string_indices_lead_to_the_strings(
    h: HostDescriptor,
    interfaces: Seq<InterfaceView>,
    strings: HostStrings,
    device_handler: Option<u64>,
    host_runtime: Option<u64>,
)
    ensures
        ({
            let d = h.device(interfaces, strings, device_handler, host_runtime);
            let m = d.string_manufacturer;
            let p = d.string_product;
            let s = d.string_serial;
            &&& strings.manufacturer is None ==> m == 0
            &&& strings.product is None ==> p == 0
            &&& strings.serial is None ==> s == 0
            &&& strings.manufacturer matches Some(text) ==> 0 < m <= d.string_pool.len()
                && d.string_pool[m - 1] == text@
            &&& strings.product matches Some(text) ==> m < p <= d.string_pool.len()
                && d.string_pool[p - 1] == text@
            &&& strings.serial matches Some(text) ==> m < s && p < s <= d.string_pool.len()
                && d.string_pool[s - 1] == text@
            &&& d.string_pool.len() == (if strings.manufacturer is Some {
                1int
            } else {
                0
            }) + (if strings.product is Some {
                1int
            } else {
                0
            }) + (if strings.serial is Some {
                1int
            } else {
                0
            })
        }),
{
}

/// A version has two decimal digits before the point in its upper byte, and
/// one each after the points in the two halves of its lower byte.
pub proof fn law_version_digits(major: u8, minor: u8, sub_minor: u8)
    requires
        major < 100,
        minor < 16,
        sub_minor < 16,
    ensures
        bcd_version(major, minor, sub_minor) / 0x1000 == major / 10,
        bcd_version(major, minor, sub_minor) / 0x100 % 16 == major % 10,
        bcd_version(major, minor, sub_minor) / 0x10 % 16 == minor,
        bcd_version(major, minor, sub_minor) % 16 == sub_minor,
{
    let a = (major / 10) as int;
    let b = (major % 10) as int;
    let v = bcd_version(major, minor, sub_minor);
    assert(0 <= a < 10 && 0 <= b < 10);
    assert(v == a * 0x1000 + b * 0x100 + minor * 0x10 + sub_minor);
    assert(v / 0x10 == a * 0x100 + b * 0x10 + minor && v % 0x10 == sub_minor);
    assert(v / 0x100 == a * 0x10 + b);
    assert(v / 0x1000 == a);
}

/// The list of addresses holds those of the endpoints of every interface, each
/// once for each endpoint, and those of a further interface come last.
pub proof fn law_addresses_are_those_of_the_endpoints(
    intfs: Seq<InterfaceView>,
    intf: InterfaceView,
    i: int,
)
    ensures
        all_addresses(seq![]).len() == 0,
        all_addresses(intfs.push(intf)).len() == all_addresses(intfs).len() + intf.endpoints.len(),
        0 <= i < all_addresses(intfs).len() ==> all_addresses(intfs.push(intf))[i] == all_addresses(
            intfs,
        )[i],
        0 <= i < intf.endpoints.len() ==> all_addresses(intfs.push(intf))[all_addresses(intfs).len()
            + i] == intf.endpoints[i].address,
{
    assert(intfs.push(intf).drop_last() =~= intfs);
}

/// A device is opened exactly if it has the vendor id that is looked for and,
/// where no serial number is, the product id.
pub proof fn law_which_devices_are_opened(
    identity: HostIdentity,
    vendor_id: u16,
    product_id: u16,
)
    ensures
        search_step(
            identity,
            SearchStage::Unknown,
            SearchEventView::Device(vendor_id, product_id),
        ) == (if vendor_id == identity.vendor_id && (identity.serial@.len() > 0 || product_id
            == identity.product_id) {
            (SearchStage::Fits, SearchAction::ReadSerial)
        } else {
            (SearchStage::Unknown, SearchAction::Next)
        }),
{
}

/// A device that was opened is claimed exactly if it gave the serial number that
/// is looked for, or has none where none is looked for; else the search goes
/// on with the next one.
pub proof fn law_which_devices_are_claimed(identity: HostIdentity, serial: Seq<char>)
    requires
        identity.interfaces@.len() > 0,
    ensures
        ({
            let claim = (SearchStage::Recognized(0), SearchAction::Claim(identity.interfaces@[0]));
            let pass = (SearchStage::Unknown, SearchAction::Next);
            let fits = SearchStage::Fits;
            &&& search_step(identity, fits, SearchEventView::Serial(serial)) == (if serial
                == identity.serial@ {
                claim
            } else {
                pass
            })
            &&& search_step(identity, fits, SearchEventView::NoSerial) == (
            if identity.serial@.len() == 0 {
                claim
            } else {
                pass
            })
            &&& search_step(identity, fits, SearchEventView::Unreadable) == pass
        }),
{
}

/// Each interface that was claimed is followed by the next one, and the last by
/// the use of the device; one that could not be claimed by the next device.
pub proof fn law_claims_go_through_the_interfaces(identity: HostIdentity, n: usize)
    requires
        n < identity.interfaces@.len() < usize::MAX,
    ensures
        search_step(identity, SearchStage::Recognized(n), SearchEventView::Claimed) == (if n + 1
            < identity.interfaces@.len() {
            (
                SearchStage::Recognized((n + 1) as usize),
                SearchAction::Claim(identity.interfaces@[n + 1]),
            )
        } else {
            (SearchStage::Unknown, SearchAction::Use)
        }),
        search_step(identity, SearchStage::Recognized(n), SearchEventView::NotClaimed) == (
            SearchStage::Unknown,
            SearchAction::Next,
        ),
{
}

/// The search gives up when there are no more devices, because none was found,
/// and when a descriptor cannot be read.
pub proof fn law_when_the_search_gives_up(
    identity: HostIdentity,
    stage: SearchStage,
    e: SearchEventView,
)
    ensures
        search_step(identity, stage, e).1 matches SearchAction::Fail(kind) ==> e is NoMoreDevices
            || e is DescriptorFailed,
        search_step(identity, stage, SearchEventView::NoMoreDevices).1 == SearchAction::Fail(
            ErrorKind::NotFound,
        ),
        search_step(identity, stage, SearchEventView::DescriptorFailed).1 == SearchAction::Fail(
            ErrorKind::Other,
        ),
{
}

/// A device whose port and packet size are not known has port 0 and packets of
/// 16 bytes on endpoint zero.
pub proof fn law_defaults_of_physical_devices()
    ensures
        UNKNOWN_PORT == 0,
        DEFAULT_EP0_PACKET_SIZE == 16,
{
}

/// What is found out in a search is taken for what it is.
pub proof fn law_search_events_are_taken_as_they_are(e: SearchEvent)
    ensures
        e matches SearchEvent::Device(v, p) ==> e@ == SearchEventView::Device(v, p),
        e matches SearchEvent::Serial(s) ==> e@ == SearchEventView::Serial(s@),
        e is DescriptorFailed <==> e@ is DescriptorFailed,
        e is NoMoreDevices <==> e@ is NoMoreDevices,
        e is NoSerial <==> e@ is NoSerial,
        e is Unreadable <==> e@ is Unreadable,
        e is Claimed <==> e@ is Claimed,
        e is NotClaimed <==> e@ is NotClaimed,
{
}

/// A version is the sum of its parts, each times its place; what does not fit
/// into sixteen bits is left out.
pub proof fn law_versions_are_sums_of_their_parts(major: u8, minor: u8, sub_minor: u8)
    ensures
        0 <= bcd_version(major, minor, sub_minor) <= 0xffff,
        (4096 * (major / 10) + 256 * (major % 10) + 16 * minor + sub_minor - bcd_version(
            major,
            minor,
            sub_minor,
        )) % 65536 == 0,
{
}

} // verus!
