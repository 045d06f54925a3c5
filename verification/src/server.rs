//! The devices that are shared, and who may connect.

use vstd::hash_map::StringHashMap;
use vstd::prelude::*;
use vstd::utf8::{encode_utf8, encode_utf8_decode_utf8};

use crate::device::{device_views, DeviceView, UsbDevice};
use crate::error::ErrorKind;
use crate::text::str_eq;
use crate::usbip_protocol::{ResponseView, UsbIpResponse};
use crate::wire::{bytes_eq, copy_range, fixed, len32};

verus! {

/// Most TCP connections (device import sessions) that are handled at a time.
pub const MAX_CONNECTIONS: usize = 32;

/// Seconds that the server waits for the next USB/IP command.
pub const COMMAND_TIMEOUT: u64 = 300;

/// Seconds after which URBs that are still in flight are given up once the
/// peer went away: a cancellation that hangs must not hold a device forever.
pub const TEARDOWN_TIMEOUT: u64 = 10;

/// An IP address, in host byte order.
#[derive(Clone, Copy, Debug, PartialEq, Eq, Structural)]
pub enum IpAddr {
    V4(u32),
    V6(u128),
}

/// An address and a port.
#[derive(Clone, Copy, Debug, PartialEq, Eq, Structural)]
pub struct SocketAddr {
    pub ip: IpAddr,
    pub port: u16,
}

impl IpAddr {
    /// Whether the address is of the host itself: 127.0.0.0/8 or ::1.
    pub open spec fn loopback(self) -> bool {
        match self {
            IpAddr::V4(v) => v / 0x100_0000 == 127,
            IpAddr::V6(v) => v == 1,
        }
    }

    pub fn is_loopback(&self) -> (r: bool)
        ensures
            r == self.loopback(),
    {
        match self {
            IpAddr::V4(v) => *v / 0x100_0000 == 127,
            IpAddr::V6(v) => *v == 1,
        }
    }
}

/// Which peers the server accepts.
#[derive(Debug)]
pub struct ServerOptions {
    /// When non-empty, only peers with these addresses may connect.
    pub allow_clients: Vec<IpAddr>,
    /// Accepts clients from any address.
    pub allow_any_client: bool,
}

impl ServerOptions {
    /// Whether a peer is accepted. One on the host itself always is.
    pub open spec fn allows(self, peer: IpAddr) -> bool {
        peer.loopback() || self.allow_any_client || self.allow_clients@.contains(peer)
    }

    /// Whether the server may listen on an address: on one that others can
    /// reach only if it was said who may connect.
    pub open spec fn may_serve(self, listen: IpAddr) -> bool {
        listen.loopback() || self.allow_any_client || self.allow_clients@.len() > 0
    }

    pub fn new() -> (r: Self)
        ensures
            r.allow_clients@ == Seq::<IpAddr>::empty(),
            !r.allow_any_client,
    {
        Self::default()
    }

    pub fn allow_client(self, ip: IpAddr) -> (r: Self)
        ensures
            r.allow_clients@ == self.allow_clients@.push(ip),
            r.allow_any_client == self.allow_any_client,
    {
        let mut allow_clients = self.allow_clients;
        allow_clients.push(ip);
        ServerOptions { allow_clients, allow_any_client: self.allow_any_client }
    }

    pub fn with_allow_any_client(self, allow: bool) -> (r: Self)
        ensures
            r.allow_clients@ == self.allow_clients@,
            r.allow_any_client == allow,
    {
        ServerOptions { allow_clients: self.allow_clients, allow_any_client: allow }
    }

    pub fn client_allowed(&self, peer: SocketAddr) -> (r: bool)
        ensures
            r == self.allows(peer.ip),
    {
        if peer.ip.is_loopback() {
            return true;
        }
        self.allow_any_client || self.lists(peer.ip)
    }

    pub fn listen_allowed(&self, listen: SocketAddr) -> (r: bool)
        ensures
            r == self.may_serve(listen.ip),
    {
        listen.ip.is_loopback() || self.allow_any_client || self.allow_clients.len() > 0
    }

    fn lists(&self, ip: IpAddr) -> (r: bool)
        ensures
            r == self.allow_clients@.contains(ip),
    {
        let mut i: usize = 0;
        while i < self.allow_clients.len()
            invariant
                i <= self.allow_clients@.len(),
                forall|j: int| 0 <= j < i ==> self.allow_clients@[j] != ip,
            decreases self.allow_clients@.len() - i,
        {
            if self.allow_clients[i] == ip {
                return true;
            }
            i += 1;
        }
        false
    }
}

impl Default for ServerOptions {
    fn default() -> (r: Self)
        ensures
            r.allow_clients@ == Seq::<IpAddr>::empty(),
            !r.allow_any_client,
    {
        ServerOptions { allow_clients: Vec::new(), allow_any_client: false }
    }
}

impl Clone for ServerOptions {
    fn clone(&self) -> (r: Self)
        ensures
            r.allow_clients@ == self.allow_clients@,
            r.allow_any_client == self.allow_any_client,
    {
        let mut allow_clients: Vec<IpAddr> = Vec::new();
        let mut i: usize = 0;
        while i < self.allow_clients.len()
            invariant
                i <= self.allow_clients@.len(),
                allow_clients@ == self.allow_clients@.take(i as int),
            decreases self.allow_clients@.len() - i,
        {
            allow_clients.push(self.allow_clients[i]);
            i += 1;
            assert(self.allow_clients@.take(i as int).drop_last() =~= self.allow_clients@.take(
                i - 1,
            ));
        }
        assert(self.allow_clients@.take(i as int) =~= self.allow_clients@);
        ServerOptions { allow_clients, allow_any_client: self.allow_any_client }
    }
}

/// Unless any client is accepted, an address that nothing names is refused,
/// and a server on which nothing was said refuses to listen where others could
/// reach it.
pub proof fn law_fail_closed(options: ServerOptions, ip: IpAddr)
    requires
        !options.allow_any_client,
        !ip.loopback(),
    ensures
        !options.allow_clients@.contains(ip) ==> !options.allows(ip),
        options.allow_clients@.len() == 0 ==> !options.may_serve(ip),
{
}

/// A server that may not listen would accept nobody from outside the host.
pub proof fn law_refuses_only_useless(options: ServerOptions, listen: IpAddr, peer: IpAddr)
    requires
        !options.may_serve(listen),
    ensures
        options.allows(peer) == peer.loopback(),
{
}

/// The devices of a server.
#[verifier::ext_equal]
pub struct PoolView {
    /// Those that can be imported, in the order in which they are listed.
    pub available: Seq<DeviceView>,
    /// Those that a connection has imported, by bus id.
    pub used: Map<Seq<char>, DeviceView>,
}

/// The first device from `from` on that goes by a bus id given in bytes.
pub open spec fn position_by_name(devices: Seq<DeviceView>, name: Seq<u8>, from: int) -> Option<int>
    decreases devices.len() - from,
{
    if from < 0 || from >= devices.len() {
        None
    } else if encode_utf8(devices[from].bus_id) == name {
        Some(from)
    } else {
        position_by_name(devices, name, from + 1)
    }
}

/// The first device from `from` on with a bus id.
pub open spec fn position_by_id(devices: Seq<DeviceView>, id: Seq<char>, from: int) -> Option<int>
    decreases devices.len() - from,
{
    if from < 0 || from >= devices.len() {
        None
    } else if devices[from].bus_id == id {
        Some(from)
    } else {
        position_by_id(devices, id, from + 1)
    }
}

/// How many bytes from `from` on are before the first zero.
pub open spec fn name_end(busid: Seq<u8>, from: int) -> int
    decreases busid.len() - from,
{
    if from < 0 || from >= busid.len() || busid[from] == 0 {
        from
    } else {
        name_end(busid, from + 1)
    }
}

/// The name in a bus id as it stands on the wire: what is before the first
/// zero.
pub open spec fn busid_name(busid: Seq<u8>) -> Seq<u8> {
    busid.take(name_end(busid, 0))
}

impl PoolView {
    /// Every device in use stands under its own bus id.
    pub open spec fn keyed(self) -> bool {
        forall|id: Seq<char>| #[trigger]
            self.used.contains_key(id) ==> self.used[id].bus_id == id
    }

    /// No two devices have the same bus id.
    pub open spec fn distinct(self) -> bool {
        &&& self.keyed()
        &&& forall|i: int, j: int|
            0 <= i < j < self.available.len() ==> (#[trigger] self.available[i]).bus_id != (
            #[trigger] self.available[j]).bus_id
        &&& forall|i: int|
            0 <= i < self.available.len() ==> !self.used.contains_key(
                (#[trigger] self.available[i]).bus_id,
            )
    }

    /// All devices, available or in use.
    pub open spec fn devices(self) -> Set<DeviceView> {
        self.available.to_set().union(self.used.values())
    }

    /// The reply to a client that asks which devices it can import.
    pub open spec fn devlist(self) -> ResponseView {
        ResponseView::Devlist {
            status: 0,
            device_count: len32(self.available.len()),
            devices: self.available,
        }
    }

    /// The pool once the device that goes by `id` is no longer in use.
    pub open spec fn release(self, id: Option<Seq<char>>) -> PoolView {
        if id is Some && self.used.contains_key(id->0) {
            PoolView {
                available: self.available.push(self.used[id->0]),
                used: self.used.remove(id->0),
            }
        } else {
            self
        }
    }

    /// The device that an import of `busid` would take.
    pub open spec fn importable(self, busid: Seq<u8>) -> Option<int> {
        position_by_name(self.available, busid_name(busid), 0)
    }

    /// The pool once the device at a position has been imported.
    pub open spec fn take(self, at: int) -> PoolView {
        let device = self.available[at];
        PoolView {
            available: self.available.remove(at),
            used: self.used.insert(device.bus_id, device),
        }
    }
}

/// Why a device could not be removed.
#[derive(Debug)]
pub enum RemoveError {
    /// A connection has imported it.
    InUse(String),
    /// There is none.
    NotFound(String),
}

/// What a [`RemoveError`] says.
#[verifier::ext_equal]
pub enum RemoveErrorView {
    InUse(Seq<char>),
    NotFound(Seq<char>),
}

impl View for RemoveError {
    type V = RemoveErrorView;

    open spec fn view(&self) -> RemoveErrorView {
        match self {
            RemoveError::InUse(id) => RemoveErrorView::InUse(id@),
            RemoveError::NotFound(id) => RemoveErrorView::NotFound(id@),
        }
    }
}

impl RemoveErrorView {
    pub open spec fn text(self) -> Seq<char> {
        match self {
            RemoveErrorView::InUse(id) => "Device "@ + id + " is in use"@,
            RemoveErrorView::NotFound(id) => "Device "@ + id + " not found"@,
        }
    }
}

impl RemoveError {
    pub fn kind(&self) -> (kind: ErrorKind)
        ensures
            kind == (match self@ {
                RemoveErrorView::InUse(_) => ErrorKind::Other,
                RemoveErrorView::NotFound(_) => ErrorKind::NotFound,
            }),
    {
        match self {
            RemoveError::InUse(_) => ErrorKind::Other,
            RemoveError::NotFound(_) => ErrorKind::NotFound,
        }
    }

    pub fn message(&self) -> (message: String)
        ensures
            message@ == self@.text(),
    {
        let mut message = String::new();
        message.append("Device ");
        match self {
            RemoveError::InUse(id) => {
                message.append(id.as_str());
                message.append(" is in use");
            },
            RemoveError::NotFound(id) => {
                message.append(id.as_str());
                message.append(" not found");
            },
        }
        message
    }
}

/// Main struct of a USB/IP server: the devices that it shares.
pub struct UsbIpServer {
    available_devices: Vec<UsbDevice>,
    used_devices: StringHashMap<UsbDevice>,
}

impl View for UsbIpServer {
    type V = PoolView;

    closed spec fn view(&self) -> PoolView {
        PoolView {
            available: device_views(self.available_devices@),
            used: self.used_devices@.map_values(|d: UsbDevice| d@),
        }
    }
}

impl Default for UsbIpServer {
    fn default() -> (r: Self)
        ensures
            r@.available == Seq::<DeviceView>::empty(),
            r@.used == Map::<Seq<char>, DeviceView>::empty(),
            r.wf(),
    {
        Self::new_simulated(Vec::new())
    }
}

impl UsbIpServer {
    /// The invariant of a server.
    pub open spec fn wf(self) -> bool {
        self@.keyed()
    }

    /// Creates a [`UsbIpServer`] with simulated devices.
    pub fn new_simulated(devices: Vec<UsbDevice>) -> (r: Self)
        ensures
            r@.available == device_views(devices@),
            r@.used == Map::<Seq<char>, DeviceView>::empty(),
            r.wf(),
    {
        let r = UsbIpServer { available_devices: devices, used_devices: StringHashMap::new() };
        assert(r@.used =~= Map::<Seq<char>, DeviceView>::empty());
        r
    }

    /// Makes one more device available.
    pub fn add_device(&mut self, device: UsbDevice)
        requires
            old(self).wf(),
        ensures
            final(self)@.available == old(self)@.available.push(device@),
            final(self)@.used == old(self)@.used,
            final(self).wf(),
    {
        self.available_devices.push(device);
        assert(self@.available =~= old(self)@.available.push(device@));
        assert(self@.used =~= old(self)@.used);
    }

    /// The number of devices that can be imported now.
    pub fn available_device_count(&self) -> (r: usize)
        ensures
            r == self@.available.len(),
    {
        self.available_devices.len()
    }

    /// The reply to a client that asks which devices it can import.
    pub fn devlist(&self) -> (r: UsbIpResponse)
        ensures
            r@ == self@.devlist(),
    {
        UsbIpResponse::op_rep_devlist(self.available_devices.as_slice())
    }

    /// Whether a connection has imported a device.
    pub fn in_use(&self, bus_id: &str) -> (r: bool)
        ensures
            r == self@.used.contains_key(bus_id@),
    {
        self.used_devices.contains_key(bus_id)
    }

    /// Takes the first available device with a bus id out of the server.
    pub fn remove_device(&mut self, bus_id: &str) -> (r: Result<(), RemoveError>)
        requires
            old(self).wf(),
        ensures
            final(self).wf(),
            final(self)@.used == old(self)@.used,
            match position_by_id(old(self)@.available, bus_id@, 0) {
                Some(at) => {
                    &&& r is Ok
                    &&& final(self)@.available == old(self)@.available.remove(at)
                },
                None => {
                    &&& final(self)@.available == old(self)@.available
                    &&& r is Err
                    &&& r->Err_0@ == if old(self)@.used.contains_key(bus_id@) {
                        RemoveErrorView::InUse(bus_id@)
                    } else {
                        RemoveErrorView::NotFound(bus_id@)
                    }
                },
            },
    {
        let mut i: usize = 0;
        while i < self.available_devices.len()
            invariant
                i <= self.available_devices@.len(),
                *self == *old(self),
                old(self).wf(),
                position_by_id(self@.available, bus_id@, 0) == position_by_id(
                    self@.available,
                    bus_id@,
                    i as int,
                ),
            decreases self.available_devices@.len() - i,
        {
            if str_eq(self.available_devices[i].bus_id.as_str(), bus_id) {
                self.available_devices.remove(i);
                assert(self@.available =~= old(self)@.available.remove(i as int));
                assert(self@.used =~= old(self)@.used);
                return Ok(());
            }
            i += 1;
        }
        if self.used_devices.contains_key(bus_id) {
            Err(RemoveError::InUse(bus_id.to_owned()))
        } else {
            Err(RemoveError::NotFound(bus_id.to_owned()))
        }
    }

    /// Makes a device that was in use available again.
    pub fn release(&mut self, bus_id: &str)
        requires
            old(self).wf(),
        ensures
            final(self)@ == old(self)@.release(Some(bus_id@)),
            final(self).wf(),
    {
        let device = match self.used_devices.get(bus_id) {
            Some(device) => device.clone(),
            None => return,
        };
        self.used_devices.remove(bus_id);
        self.available_devices.push(device);
        assert(self@.available =~= old(self)@.available.push(device@));
        assert(self@.used =~= old(self)@.used.remove(bus_id@));
    }

    /// Marks the device that goes by `busid` as in use and returns it.
    pub fn import(&mut self, busid: &[u8; 32]) -> (r: Option<UsbDevice>)
        requires
            old(self).wf(),
        ensures
            final(self).wf(),
            match old(self)@.importable(busid@) {
                Some(at) => {
                    &&& r is Some
                    &&& r->0@ == old(self)@.available[at]
                    &&& final(self)@ == old(self)@.take(at)
                },
                None => r is None && final(self)@ == old(self)@,
            },
    {
        let name = Self::name_of(busid);
        let mut i: usize = 0;
        while i < self.available_devices.len()
            invariant
                i <= self.available_devices@.len(),
                *self == *old(self),
                old(self).wf(),
                name@ == busid_name(busid@),
                position_by_name(self@.available, name@, 0) == position_by_name(
                    self@.available,
                    name@,
                    i as int,
                ),
            decreases self.available_devices@.len() - i,
        {
            if bytes_eq(self.available_devices[i].bus_id.as_str().as_bytes(), name.as_slice()) {
                let device = self.available_devices.remove(i);
                let copy = device.clone();
                let id = device.bus_id.clone();
                self.used_devices.insert(id, device);
                assert(self@.available =~= old(self)@.available.remove(i as int));
                assert(self@.used =~= old(self)@.used.insert(copy@.bus_id, copy@));
                return Some(copy);
            }
            i += 1;
        }
        None
    }

    fn name_of(busid: &[u8; 32]) -> (r: Vec<u8>)
        ensures
            r@ == busid_name(busid@),
    {
        let mut end: usize = 0;
        while end < 32 && busid[end] != 0
            invariant
                end <= 32,
                busid@.len() == 32,
                name_end(busid@, 0) == name_end(busid@, end as int),
            decreases 32 - end,
        {
            end += 1;
        }
        let r = copy_range(busid.as_slice(), 0, end);
        assert(r@ =~= busid@.take(end as int));
        r
    }
}

proof fn lemma_position_by_name(devices: Seq<DeviceView>, name: Seq<u8>, from: int)
    requires
        0 <= from,
    ensures
        match position_by_name(devices, name, from) {
            Some(at) => {
                &&& from <= at < devices.len()
                &&& encode_utf8(devices[at].bus_id) == name
                &&& forall|i: int|
                    from <= i < at ==> encode_utf8((#[trigger] devices[i]).bus_id) != name
            },
            None => forall|i: int|
                from <= i < devices.len() ==> encode_utf8((#[trigger] devices[i]).bus_id) != name,
        },
    decreases devices.len() - from,
{
    if from < devices.len() && encode_utf8(devices[from].bus_id) != name {
        lemma_position_by_name(devices, name, from + 1);
    }
}

proof fn lemma_position_by_id(devices: Seq<DeviceView>, id: Seq<char>, from: int)
    requires
        0 <= from,
    ensures
        match position_by_id(devices, id, from) {
            Some(at) => {
                &&& from <= at < devices.len()
                &&& devices[at].bus_id == id
                &&& forall|i: int| from <= i < at ==> (#[trigger] devices[i]).bus_id != id
            },
            None => forall|i: int|
                from <= i < devices.len() ==> (#[trigger] devices[i]).bus_id != id,
        },
    decreases devices.len() - from,
{
    if from < devices.len() && devices[from].bus_id != id {
        lemma_position_by_id(devices, id, from + 1);
    }
}

proof fn lemma_name_end(busid: Seq<u8>, from: int, end: int)
    requires
        0 <= from <= end <= busid.len(),
        forall|i: int| from <= i < end ==> busid[i] != 0,
        end < busid.len() ==> busid[end] == 0,
    ensures
        name_end(busid, from) == end,
    decreases end - from,
{
    if from < end {
        lemma_name_end(busid, from + 1, end);
    }
}

/// A lookup by bus id finds the first available device that has it, and finds
/// none only where there is none.
pub proof fn law_position_by_id(devices: Seq<DeviceView>, id: Seq<char>)
    ensures
        match position_by_id(devices, id, 0) {
            Some(at) => {
                &&& 0 <= at < devices.len()
                &&& devices[at].bus_id == id
                &&& forall|i: int| 0 <= i < at ==> (#[trigger] devices[i]).bus_id != id
            },
            None => forall|i: int|
                0 <= i < devices.len() ==> (#[trigger] devices[i]).bus_id != id,
        },
{
    lemma_position_by_id(devices, id, 0);
}

/// Bytes without a zero among them are the name in their own wire form.
pub proof fn law_busid_name_round_trip(name: Seq<u8>)
    requires
        name.len() <= 32,
        forall|i: int| 0 <= i < name.len() ==> name[i] != 0,
    ensures
        busid_name(fixed(name, 32)) == name,
{
    lemma_name_end(fixed(name, 32), 0, name.len() as int);
    assert(fixed(name, 32).take(name.len() as int) =~= name);
}

/// An import finds the first available device with the bus id asked for, and
/// finds none only where there is none.
pub proof fn law_import_finds_the_bus_id(pool: PoolView, id: Seq<char>)
    requires
        encode_utf8(id).len() <= 32,
        forall|i: int| 0 <= i < encode_utf8(id).len() ==> encode_utf8(id)[i] != 0,
    ensures
        pool.importable(fixed(encode_utf8(id), 32)) == position_by_id(pool.available, id, 0),
{
    let name = encode_utf8(id);
    law_busid_name_round_trip(name);
    lemma_position_by_name(pool.available, name, 0);
    lemma_position_by_id(pool.available, id, 0);
    assert forall|i: int| 0 <= i < pool.available.len() implies (encode_utf8(
        (#[trigger] pool.available[i]).bus_id,
    ) == name) == (pool.available[i].bus_id == id) by {
        encode_utf8_decode_utf8(pool.available[i].bus_id);
        encode_utf8_decode_utf8(id);
    }
}

/// What an import takes is there, and goes by the name asked for.
pub proof fn law_import_takes_an_available_device(pool: PoolView, busid: Seq<u8>)
    ensures
        pool.importable(busid) matches Some(at) ==> {
            &&& 0 <= at < pool.available.len()
            &&& encode_utf8(pool.available[at].bus_id) == busid_name(busid)
        },
{
    lemma_position_by_name(pool.available, busid_name(busid), 0);
}

/// Importing a device neither loses nor duplicates one, and leaves it in use.
pub proof fn law_take_keeps_devices(pool: PoolView, at: int)
    requires
        pool.distinct(),
        0 <= at < pool.available.len(),
    ensures
        pool.take(at).distinct(),
        pool.take(at).devices() == pool.devices(),
        pool.take(at).used.contains_pair(pool.available[at].bus_id, pool.available[at]),
        pool.take(at).available.len() == pool.available.len() - 1,
{
    let after = pool.take(at);
    let taken = pool.available[at];
    assert forall|d: DeviceView| after.devices().contains(d) == pool.devices().contains(d) by {
        if pool.available.contains(d) {
            let i = choose|i: int| 0 <= i < pool.available.len() && pool.available[i] == d;
            if i < at {
                assert(after.available[i] == d);
            } else if i > at {
                assert(after.available[i - 1] == d);
            } else {
                assert(after.used[taken.bus_id] == d);
                assert(after.used.contains_key(taken.bus_id));
                assert(after.used.values().contains(d));
            }
        }
        if pool.used.values().contains(d) {
            let k = choose|k: Seq<char>| #[trigger] pool.used.contains_key(k) && pool.used[k] == d;
            assert(after.used.contains_key(k) && after.used[k] == d);
        }
        if after.available.contains(d) {
            let i = choose|i: int| 0 <= i < after.available.len() && after.available[i] == d;
            assert(pool.available[if i < at { i } else { i + 1 }] == d);
        }
        if after.used.values().contains(d) {
            let k = choose|k: Seq<char>|
                #[trigger] after.used.contains_key(k) && after.used[k] == d;
            if k != taken.bus_id {
                assert(pool.used.contains_key(k) && pool.used[k] == d);
            } else {
                assert(pool.available[at] == d);
            }
        }
    }
    assert(after.devices() =~= pool.devices());
}

/// Releasing a device neither loses nor duplicates one, and leaves it
/// available.
pub proof fn law_release_keeps_devices(pool: PoolView, id: Option<Seq<char>>)
    requires
        pool.distinct(),
    ensures
        pool.release(id).distinct(),
        pool.release(id).devices() == pool.devices(),
        id is Some ==> !pool.release(id).used.contains_key(id->0),
        id is Some && pool.used.contains_key(id->0) ==> pool.release(id).available.contains(
            pool.used[id->0],
        ),
{
    if id is Some && pool.used.contains_key(id->0) {
        let after = pool.release(id);
        let freed = pool.used[id->0];
        let last = pool.available.len() as int;
        assert(after.available[last] == freed);
        assert forall|d: DeviceView| after.devices().contains(d) == pool.devices().contains(d) by {
            if pool.available.contains(d) {
                let i = choose|i: int| 0 <= i < pool.available.len() && pool.available[i] == d;
                assert(after.available[i] == d);
            }
            if pool.used.values().contains(d) {
                let k = choose|k: Seq<char>|
                    #[trigger] pool.used.contains_key(k) && pool.used[k] == d;
                if k != id->0 {
                    assert(after.used.contains_key(k) && after.used[k] == d);
                }
            }
            if after.available.contains(d) {
                let i = choose|i: int| 0 <= i < after.available.len() && after.available[i] == d;
                if i < last {
                    assert(pool.available[i] == d);
                } else {
                    assert(pool.used.contains_key(id->0) && pool.used[id->0] == d);
                }
            }
            if after.used.values().contains(d) {
                let k = choose|k: Seq<char>|
                    #[trigger] after.used.contains_key(k) && after.used[k] == d;
                assert(pool.used.contains_key(k) && pool.used[k] == d);
            }
        }
        assert(after.devices() =~= pool.devices());
    }
}

/// Importing a device and releasing it gives the same devices back, all
/// available that were.
pub proof fn law_take_then_release(pool: PoolView, at: int)
    requires
        pool.distinct(),
        0 <= at < pool.available.len(),
    ensures
        ({
            let id = pool.available[at].bus_id;
            let after = pool.take(at).release(Some(id));
            &&& after.used == pool.used
            &&& after.available == pool.available.remove(at).push(pool.available[at])
        }),
{
    let id = pool.available[at].bus_id;
    assert(pool.take(at).release(Some(id)).used =~= pool.used);
}

/// A device that was added can be removed again, and that undoes the adding,
/// unless another available one has its bus id.
pub proof fn law_add_then_remove(available: Seq<DeviceView>, device: DeviceView)
    requires
        position_by_id(available, device.bus_id, 0) is None,
    ensures
        ({
            let added = available.push(device);
            &&& position_by_id(added, device.bus_id, 0) == Some(available.len() as int)
            &&& added.remove(available.len() as int) == available
        }),
{
    let added = available.push(device);
    lemma_position_by_id(available, device.bus_id, 0);
    lemma_position_by_id(added, device.bus_id, 0);
    assert(added[available.len() as int] == device);
    assert forall|i: int| 0 <= i < available.len() implies (#[trigger] added[i]).bus_id
        != device.bus_id by {
        assert(added[i] == available[i]);
    }
    assert(added.remove(available.len() as int) =~= available);
}

/// A peer on the host itself is accepted whatever the options are.
pub proof fn law_loopback_is_always_allowed(options: ServerOptions, ip: IpAddr)
    requires
        ip.loopback(),
    ensures
        options.allows(ip),
        options.may_serve(ip),
{
}

/// The addresses of the host itself are 127.0.0.0 to 127.255.255.255, and ::1.
pub proof fn law_loopback_addresses(v4: u32, v6: u128)
    ensures
        IpAddr::V4(v4).loopback() <==> 0x7f00_0000 <= v4 <= 0x7fff_ffff,
        IpAddr::V6(v6).loopback() <==> v6 == 1,
{
}

/// Beyond the host itself a peer is accepted if any client is, or if its own
/// address is one of those that were given, and not otherwise.
pub proof fn law_who_is_accepted(options: ServerOptions, peer: IpAddr)
    requires
        !peer.loopback(),
    ensures
        options.allow_any_client ==> options.allows(peer),
        (exists|i: int|
            0 <= i < options.allow_clients@.len() && #[trigger] options.allow_clients@[i] == peer)
            ==> options.allows(peer),
        options.allows(peer) && !options.allow_any_client ==> exists|i: int|
            0 <= i < options.allow_clients@.len() && #[trigger] options.allow_clients@[i] == peer,
        options.may_serve(peer) <==> options.allow_any_client || options.allow_clients@.len() > 0,
{
}

/// The reply to a client that asks for the devices names all available ones, in
/// their order and no others, and says how many they are; so every device that
/// an import could take is listed.
pub proof fn law_devlist_names_the_available_devices(pool: PoolView, busid: Seq<u8>)
    ensures
        pool.devlist() is Devlist,
        pool.devlist()->Devlist_status == 0,
        pool.devlist()->devices.len() == pool.available.len(),
        forall|i: int|
            0 <= i < pool.available.len() ==> #[trigger] pool.devlist()->devices[i]
                == pool.available[i],
        pool.available.len() <= u32::MAX ==> pool.devlist()->device_count == pool.available.len(),
        pool.importable(busid) matches Some(at) ==> pool.devlist()->devices.contains(
            pool.available[at],
        ),
{
    law_import_takes_an_available_device(pool, busid);
    if let Some(at) = pool.importable(busid) {
        assert(pool.devlist()->devices[at] == pool.available[at]);
    }
}

/// The name in a bus id on the wire is all of it up to the first zero.
pub proof fn law_busid_name_ends_at_the_first_zero(busid: Seq<u8>)
    ensures
        busid_name(busid).len() <= busid.len(),
        forall|i: int|
            0 <= i < busid_name(busid).len() ==> #[trigger] busid_name(busid)[i] == busid[i]
                && busid[i] != 0,
        busid_name(busid).len() < busid.len() ==> busid[busid_name(busid).len() as int] == 0,
{
    lemma_name_end_is_the_first_zero(busid, 0);
}

proof fn lemma_name_end_is_the_first_zero(busid: Seq<u8>, from: int)
    requires
        0 <= from <= busid.len(),
    ensures
        from <= name_end(busid, from) <= busid.len(),
        forall|i: int| from <= i < name_end(busid, from) ==> busid[i] != 0,
        name_end(busid, from) < busid.len() ==> busid[name_end(busid, from)] == 0,
    decreases busid.len() - from,
{
    if from < busid.len() && busid[from] != 0 {
        lemma_name_end_is_the_first_zero(busid, from + 1);
    }
}

/// An import takes the first available device whose bus id has the bytes of
/// the name, and none only where no available device has them.
pub proof fn law_import_takes_the_first_of_the_name(pool: PoolView, busid: Seq<u8>)
    ensures
        match pool.importable(busid) {
            Some(at) => {
                &&& 0 <= at < pool.available.len()
                &&& encode_utf8(pool.available[at].bus_id) == busid_name(busid)
                &&& forall|i: int|
                    0 <= i < at ==> encode_utf8((#[trigger] pool.available[i]).bus_id)
                        != busid_name(busid)
            },
            None => forall|i: int|
                0 <= i < pool.available.len() ==> encode_utf8((#[trigger] pool.available[i]).bus_id)
                    != busid_name(busid),
        },
{
    lemma_position_by_name(pool.available, busid_name(busid), 0);
}

/// A device that is imported leaves the available ones, which keep their order,
/// and is in use under its own bus id, beside those that were in use.
pub proof fn law_what_an_import_changes(pool: PoolView, at: int, id: Seq<char>, i: int)
    requires
        0 <= at < pool.available.len(),
    ensures
        pool.take(at).available.len() == pool.available.len() - 1,
        0 <= i < at ==> pool.take(at).available[i] == pool.available[i],
        at <= i < pool.available.len() - 1 ==> pool.take(at).available[i] == pool.available[i + 1],
        id == pool.available[at].bus_id ==> pool.take(at).used.contains_pair(
            id,
            pool.available[at],
        ),
        id != pool.available[at].bus_id ==> pool.take(at).used.contains_key(id)
            == pool.used.contains_key(id),
        id != pool.available[at].bus_id && pool.used.contains_key(id) ==> pool.take(at).used[id]
            == pool.used[id],
{
}

/// A device that is released leaves those in use and is the last of the
/// available ones; where nothing is in use under the bus id, nothing changes.
pub proof fn law_what_a_release_changes(pool: PoolView, id: Seq<char>, other: Seq<char>, i: int)
    ensures
        pool.release(None) == pool,
        !pool.used.contains_key(id) ==> pool.release(Some(id)) == pool,
        pool.used.contains_key(id) ==> {
            let after = pool.release(Some(id));
            &&& after.available.len() == pool.available.len() + 1
            &&& 0 <= i < pool.available.len() ==> after.available[i] == pool.available[i]
            &&& after.available[pool.available.len() as int] == pool.used[id]
            &&& !after.used.contains_key(id)
            &&& other != id ==> after.used.contains_key(other) == pool.used.contains_key(other)
            &&& other != id && pool.used.contains_key(other) ==> after.used[other]
                == pool.used[other]
        },
{
}

/// The messages for a device that could not be removed name it.
pub proof fn law_remove_messages(id: Seq<char>)
    ensures
        RemoveErrorView::InUse(id).text() == "Device "@ + id + " is in use"@,
        RemoveErrorView::NotFound(id).text() == "Device "@ + id + " not found"@,
{
}

/// The limits of the server: connections, and the seconds that it waits for a
/// command and for URBs once the peer went away.
pub proof fn law_server_limits()
    ensures
        MAX_CONNECTIONS == 32,
        COMMAND_TIMEOUT == 300,
        TEARDOWN_TIMEOUT == 10,
{
}

} // verus!
