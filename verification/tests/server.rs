use usbip::error::ErrorKind;
use usbip::server::{IpAddr, SocketAddr};
use usbip::{ServerOptions, UsbDevice, UsbIpServer};

fn v4(ip: [u8; 4]) -> IpAddr {
    IpAddr::V4(u32::from_be_bytes(ip))
}

fn device(bus_id: &str) -> UsbDevice {
    let mut device = UsbDevice::default();
    device.bus_id = bus_id.to_string();
    device
}

fn busid(id: &str) -> [u8; 32] {
    let mut bytes = id.as_bytes().to_vec();
    bytes.resize(32, 0);
    bytes.try_into().unwrap()
}

#[test]
fn client_allowlist_is_fail_closed() {
    let peer = |ip: [u8; 4], port: u16| SocketAddr { ip: v4(ip), port };

    // Empty allowlist without the explicit override rejects non-loopback.
    let options = ServerOptions::default();
    assert!(!options.client_allowed(peer([192, 168, 1, 50], 3240)));
    // Loopback is always trusted.
    assert!(options.client_allowed(peer([127, 0, 0, 1], 3240)));
    // Allowlisted peer passes, others are rejected.
    let options = ServerOptions::new().allow_client(v4([192, 168, 1, 50]));
    assert!(options.client_allowed(peer([192, 168, 1, 50], 9999)));
    assert!(!options.client_allowed(peer([192, 168, 1, 51], 3240)));
    // Explicit override accepts any non-loopback address too.
    let options = ServerOptions::new().with_allow_any_client(true);
    assert!(options.client_allowed(peer([10, 0, 0, 7], 3240)));
}

#[test]
fn loopback_addresses() {
    assert!(v4([127, 255, 1, 2]).is_loopback());
    assert!(!v4([128, 0, 0, 1]).is_loopback());
    assert!(!v4([126, 255, 255, 255]).is_loopback());
    assert!(IpAddr::V6(1).is_loopback());
    assert!(!IpAddr::V6(0).is_loopback());
    // an IPv4 address in IPv6 form is not one of them
    assert!(!IpAddr::V6(0xffff_7f00_0001).is_loopback());
}

#[test]
fn listening_is_fail_closed() {
    let lan = SocketAddr {
        ip: v4([0, 0, 0, 0]),
        port: 3240,
    };
    let local = SocketAddr {
        ip: v4([127, 0, 0, 1]),
        port: 3240,
    };
    let options = ServerOptions::new();
    assert!(!options.listen_allowed(lan));
    assert!(options.listen_allowed(local));
    assert!(options.clone().with_allow_any_client(true).listen_allowed(lan));
    assert!(options.allow_client(IpAddr::V6(2)).listen_allowed(lan));
}

#[test]
fn allowlist_survives_cloning() {
    let options = ServerOptions::new()
        .allow_client(IpAddr::V6(2))
        .allow_client(v4([10, 0, 0, 7]));
    let copy = options.clone();
    assert_eq!(copy.allow_clients, [IpAddr::V6(2), v4([10, 0, 0, 7])]);
    assert!(!copy.allow_any_client);
}

#[test]
fn add_and_remove_10_devices() {
    let mut server = UsbIpServer::new_simulated(vec![]);
    let ids: Vec<String> = (0..10).map(|i| format!("0-0-{i}")).collect();
    for id in &ids {
        server.add_device(device(id));
    }
    assert_eq!(server.available_device_count(), 10);
    for id in &ids {
        server.remove_device(id).unwrap();
    }
    assert_eq!(server.available_device_count(), 0);
}

#[test]
fn removing_reports_why_it_failed() {
    let mut server = UsbIpServer::new_simulated(vec![device("1-2-3")]);
    let missing = server.remove_device("1-2-4").unwrap_err();
    assert_eq!(missing.kind(), ErrorKind::NotFound);
    assert_eq!(missing.message(), "Device 1-2-4 not found");

    assert!(server.import(&busid("1-2-3")).is_some());
    let used = server.remove_device("1-2-3").unwrap_err();
    assert_eq!(used.kind(), ErrorKind::Other);
    assert_eq!(used.message(), "Device 1-2-3 is in use");
    assert!(server.in_use("1-2-3"));

    server.release("1-2-3");
    assert!(!server.in_use("1-2-3"));
    server.remove_device("1-2-3").unwrap();
    assert_eq!(server.available_device_count(), 0);
}

#[test]
fn imports_go_by_the_whole_name() {
    let mut server = UsbIpServer::new_simulated(vec![device("1-2-33"), device("1-2-3")]);
    assert!(server.import(&busid("1-2")).is_none());
    assert!(server.import(&busid("")).is_none());
    assert!(server.import(&[b'1'; 32]).is_none());
    // what follows the first zero does not count
    let mut name = busid("1-2-3");
    name[8] = b'3';
    assert_eq!(server.import(&name).unwrap().bus_id, "1-2-3");
    assert!(server.import(&name).is_none());
    assert_eq!(server.available_device_count(), 1);
}

#[test]
fn a_name_may_fill_the_field() {
    let id = "x".repeat(32);
    let mut server = UsbIpServer::new_simulated(vec![device(&id)]);
    assert!(server.import(&busid(&id)).is_some());
}

#[test]
fn releasing_what_is_not_in_use_changes_nothing() {
    let mut server = UsbIpServer::new_simulated(vec![device("1-2-3")]);
    server.release("1-2-3");
    assert_eq!(server.available_device_count(), 1);
}

#[test]
fn the_first_of_two_equal_bus_ids_is_taken() {
    let mut second = device("1-2-3");
    second.product_id = 2;
    let mut server = UsbIpServer::new_simulated(vec![device("1-2-3"), second]);
    server.remove_device("1-2-3").unwrap();
    assert_eq!(server.import(&busid("1-2-3")).unwrap().product_id, 2);
}
