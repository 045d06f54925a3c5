use usbip::error::ErrorKind;
use usbip::host::{
    version_to_bcd, HostDescriptor, HostIdentity, HostStrings, InterfaceClaims, Search,
    SearchAction, SearchEvent,
};
use usbip::{UsbEndpoint, UsbInterface, UsbSpeed};

fn descriptor() -> HostDescriptor {
    HostDescriptor {
        bus_number: 1,
        address: 17,
        port_number: 13,
        speed: UsbSpeed::High.as_u32(),
        vendor_id: 0x2207,
        product_id: 0x0006,
        device_class: 1,
        device_subclass: 2,
        device_protocol: 3,
        device_version: 0x0310,
        usb_version: 0x0200,
        configuration_value: 1,
        num_configurations: 2,
        max_packet_size: 64,
    }
}

fn interface(addresses: &[u8]) -> UsbInterface {
    UsbInterface {
        interface_class: 0xff,
        interface_subclass: 0x42,
        interface_protocol: 1,
        endpoints: addresses
            .iter()
            .map(|address| UsbEndpoint {
                address: *address,
                attributes: 2,
                max_packet_size: 512,
                interval: 0,
            })
            .collect(),
        string_interface: 0,
        class_specific_descriptor: vec![],
    }
}

#[test]
fn devices_are_named_by_bus_address_and_port() {
    let strings = HostStrings {
        manufacturer: Some("Maker".to_string()),
        product: None,
        serial: Some("SN1".to_string()),
    };
    let device = descriptor().describe(vec![interface(&[0x81])], strings, Some(4), Some(5));
    assert_eq!(device.path, "/sys/bus/1/17/13");
    assert_eq!(device.bus_id, "1-17-13");
    assert_eq!((device.bus_num, device.dev_num), (1, 17));
    assert_eq!(device.devid(), 0x1_0011);
    assert_eq!(device.speed, 3);
    assert_eq!((device.vendor_id, device.product_id), (0x2207, 6));
    assert_eq!((device.device_bcd, device.usb_version), (0x310, 0x200));
    assert_eq!(device.ep0_in.address, 0x80);
    assert_eq!(device.ep0_in.max_packet_size, 64);
    assert_eq!(device.ep0_out.address, 0);
    assert_eq!(device.num_configurations, 2);
    assert_eq!(device.interfaces.len(), 1);
    assert_eq!((device.device_handler, device.host_runtime), (Some(4), Some(5)));
    // strings that could not be read are left out
    assert_eq!(device.string_pool, ["Maker", "SN1"]);
    assert_eq!(device.string_manufacturer, 1);
    assert_eq!(device.string_product, 0);
    assert_eq!(device.string_serial, 2);
}

#[test]
fn a_device_without_strings_has_no_indices() {
    let strings = HostStrings {
        manufacturer: None,
        product: None,
        serial: None,
    };
    let mut descriptor = descriptor();
    descriptor.bus_number = u32::MAX;
    descriptor.address = 255;
    descriptor.port_number = 0;
    let device = descriptor.describe(vec![], strings, None, None);
    assert_eq!(device.bus_id, "4294967295-255-0");
    assert!(device.bus_id.len() <= 32);
    assert!(device.string_pool.is_empty());
    assert_eq!(device.string_serial, 0);
}

#[test]
fn speeds_are_numbered_as_usbip_numbers_them() {
    assert_eq!(UsbSpeed::Unknown.as_u32(), 0);
    assert_eq!(UsbSpeed::Low.as_u32(), 1);
    assert_eq!(UsbSpeed::Full.as_u32(), 2);
    assert_eq!(UsbSpeed::High.as_u32(), 3);
    assert_eq!(UsbSpeed::Super.as_u32(), 5);
    assert_eq!(UsbSpeed::SuperPlus.as_u32(), 6);
}

#[test]
fn devices_are_shared_only_with_all_interfaces() {
    let mut claims = InterfaceClaims::new();
    claims.claimed(0, interface(&[0x81]));
    claims.claimed(2, interface(&[0x02]));
    let (interfaces, numbers) = claims.finish().unwrap();
    assert_eq!(interfaces.len(), 2);
    assert_eq!(numbers, [0, 2]);

    let mut claims = InterfaceClaims::new();
    claims.claimed(0, interface(&[0x81]));
    claims.refuse();
    assert!(claims.finish().is_none());
    assert!(InterfaceClaims::new().finish().is_none());
}

#[test]
fn endpoints_are_listed_in_order() {
    let strings = HostStrings {
        manufacturer: None,
        product: None,
        serial: None,
    };
    let interfaces = vec![interface(&[0x81, 0x02]), interface(&[]), interface(&[0x83])];
    let device = descriptor().describe(interfaces, strings, None, None);
    assert_eq!(device.endpoint_addresses(), [0x81, 0x02, 0x83]);
}

fn search(serial: &str) -> Search {
    Search::new(HostIdentity {
        vendor_id: 0x2207,
        product_id: 6,
        serial: serial.to_string(),
        interfaces: vec![0, 3],
    })
}

#[test]
fn a_device_with_a_serial_number_may_change_its_product_id() {
    let mut search = search("SN1");
    assert_eq!(
        search.step(SearchEvent::Device(0x18d1, 6)),
        SearchAction::Next
    );
    assert_eq!(
        search.step(SearchEvent::Device(0x2207, 7)),
        SearchAction::ReadSerial
    );
    assert_eq!(
        search.step(SearchEvent::Serial("SN2".to_string())),
        SearchAction::Next
    );
    assert_eq!(
        search.step(SearchEvent::Device(0x2207, 8)),
        SearchAction::ReadSerial
    );
    assert_eq!(
        search.step(SearchEvent::Serial("SN1".to_string())),
        SearchAction::Claim(0)
    );
    assert_eq!(search.step(SearchEvent::Claimed), SearchAction::Claim(3));
    assert_eq!(search.step(SearchEvent::Claimed), SearchAction::Use);
}

#[test]
fn a_device_without_a_serial_number_keeps_its_product_id() {
    let mut search = search("");
    assert_eq!(
        search.step(SearchEvent::Device(0x2207, 7)),
        SearchAction::Next
    );
    assert_eq!(
        search.step(SearchEvent::Device(0x2207, 6)),
        SearchAction::ReadSerial
    );
    assert_eq!(
        search.step(SearchEvent::Serial(String::new())),
        SearchAction::Claim(0)
    );
}

#[test]
fn a_device_without_a_serial_number_is_found_by_its_ids() {
    let mut search = search("");
    assert_eq!(
        search.step(SearchEvent::Device(0x2207, 6)),
        SearchAction::ReadSerial
    );
    assert_eq!(search.step(SearchEvent::NoSerial), SearchAction::Claim(0));
    assert_eq!(search.step(SearchEvent::Claimed), SearchAction::Claim(3));
    assert_eq!(search.step(SearchEvent::Claimed), SearchAction::Use);

    let mut bare = Search::new(HostIdentity {
        vendor_id: 0x2207,
        product_id: 6,
        serial: String::new(),
        interfaces: vec![],
    });
    bare.step(SearchEvent::Device(0x2207, 6));
    assert_eq!(bare.step(SearchEvent::NoSerial), SearchAction::Use);
}

#[test]
fn a_device_without_a_serial_number_is_not_taken_for_one_that_has_one() {
    let mut search = search("SN1");
    search.step(SearchEvent::Device(0x2207, 6));
    assert_eq!(search.step(SearchEvent::NoSerial), SearchAction::Next);
    // nor the other way round
    let mut search = self::search("");
    search.step(SearchEvent::Device(0x2207, 6));
    assert_eq!(
        search.step(SearchEvent::Serial("SN1".to_string())),
        SearchAction::Next
    );
    search.step(SearchEvent::Device(0x2207, 6));
    assert_eq!(search.step(SearchEvent::Unreadable), SearchAction::Next);
    // before its descriptor is known, nothing is claimed
    assert_eq!(search.step(SearchEvent::NoSerial), SearchAction::Next);
}

#[test]
fn devices_that_cannot_be_used_are_passed_over() {
    let mut search = search("SN1");
    search.step(SearchEvent::Device(0x2207, 6));
    assert_eq!(search.step(SearchEvent::Unreadable), SearchAction::Next);
    search.step(SearchEvent::Device(0x2207, 6));
    search.step(SearchEvent::Serial("SN1".to_string()));
    assert_eq!(search.step(SearchEvent::Claimed), SearchAction::Claim(3));
    assert_eq!(search.step(SearchEvent::NotClaimed), SearchAction::Next);
    assert_eq!(
        search.step(SearchEvent::NoMoreDevices),
        SearchAction::Fail(ErrorKind::NotFound)
    );
    assert_eq!(
        search.step(SearchEvent::DescriptorFailed),
        SearchAction::Fail(ErrorKind::Other)
    );
}

#[test]
fn versions_are_binary_coded_decimals() {
    assert_eq!(version_to_bcd(2, 1, 0), 0x0210);
    assert_eq!(version_to_bcd(31, 4, 5), 0x3145);
    // as libusb's wrapper reads them
    let version = rusb::Version::from_bcd(0x9876);
    assert_eq!(
        version_to_bcd(version.major(), version.minor(), version.sub_minor()),
        0x9876
    );
}
