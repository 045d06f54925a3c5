use rusb::constants as libusb;
use usbip::device::{
    SetupPacket, UsbEndpoint, ENDPOINT_BULK, ENDPOINT_CONTROL, ENDPOINT_INTERRUPT,
    ENDPOINT_ISOCHRONOUS,
};
use usbip::error::ErrorKind;
use usbip::transfer::{
    libusb_error_to_errno, transfer_status_to_errno, TransferCancellation, TransferCompletion,
    TransferKind, TransferPlan, ECONNRESET, ENODEV_ERRNO, EPIPE, LIBUSB_CONTROL_SETUP_SIZE,
    LIBUSB_TRANSFER_ADD_ZERO_PACKET, LIBUSB_TRANSFER_SHORT_NOT_OK, USBIP_URB_SHORT_NOT_OK,
    USBIP_URB_ZERO_PACKET,
};

fn endpoint(address: u8, attributes: u8) -> UsbEndpoint {
    UsbEndpoint {
        address,
        attributes,
        max_packet_size: 64,
        interval: 1,
    }
}

fn setup() -> SetupPacket {
    SetupPacket::parse(&[0x80, 0x06, 0x34, 0x12, 0x78, 0x56, 0xff, 0xff])
}

#[test]
fn maps_libusb_transfer_statuses_to_linux_errno() {
    assert_eq!(
        transfer_status_to_errno(libusb::LIBUSB_TRANSFER_COMPLETED),
        0
    );
    assert_eq!(
        transfer_status_to_errno(libusb::LIBUSB_TRANSFER_CANCELLED),
        -ECONNRESET
    );
    assert_eq!(
        transfer_status_to_errno(libusb::LIBUSB_TRANSFER_STALL),
        -EPIPE
    );
    assert_eq!(
        transfer_status_to_errno(libusb::LIBUSB_TRANSFER_NO_DEVICE),
        ENODEV_ERRNO
    );
}

#[test]
fn maps_the_other_transfer_statuses() {
    assert_eq!(
        transfer_status_to_errno(libusb::LIBUSB_TRANSFER_ERROR),
        -5
    );
    assert_eq!(
        transfer_status_to_errno(libusb::LIBUSB_TRANSFER_TIMED_OUT),
        -110
    );
    assert_eq!(
        transfer_status_to_errno(libusb::LIBUSB_TRANSFER_OVERFLOW),
        -75
    );
    assert_eq!(transfer_status_to_errno(99), -5);
}

#[test]
fn maps_libusb_errors_to_linux_errno() {
    assert_eq!(libusb_error_to_errno(libusb::LIBUSB_ERROR_IO), -5);
    assert_eq!(libusb_error_to_errno(libusb::LIBUSB_ERROR_INVALID_PARAM), -22);
    assert_eq!(libusb_error_to_errno(libusb::LIBUSB_ERROR_ACCESS), -13);
    assert_eq!(libusb_error_to_errno(libusb::LIBUSB_ERROR_NO_DEVICE), -19);
    assert_eq!(libusb_error_to_errno(libusb::LIBUSB_ERROR_NOT_FOUND), -2);
    assert_eq!(libusb_error_to_errno(libusb::LIBUSB_ERROR_BUSY), -16);
    assert_eq!(libusb_error_to_errno(libusb::LIBUSB_ERROR_TIMEOUT), -110);
    assert_eq!(libusb_error_to_errno(libusb::LIBUSB_ERROR_OVERFLOW), -75);
    assert_eq!(libusb_error_to_errno(libusb::LIBUSB_ERROR_PIPE), -32);
    assert_eq!(libusb_error_to_errno(libusb::LIBUSB_ERROR_INTERRUPTED), -4);
    assert_eq!(libusb_error_to_errno(libusb::LIBUSB_ERROR_NO_MEM), -12);
    assert_eq!(libusb_error_to_errno(libusb::LIBUSB_ERROR_NOT_SUPPORTED), -5);
    assert_eq!(libusb_error_to_errno(libusb::LIBUSB_ERROR_OTHER), -5);
}

#[test]
fn flags_are_those_of_libusb() {
    assert_eq!(
        LIBUSB_TRANSFER_SHORT_NOT_OK,
        libusb::LIBUSB_TRANSFER_SHORT_NOT_OK
    );
    assert_eq!(
        LIBUSB_TRANSFER_ADD_ZERO_PACKET,
        libusb::LIBUSB_TRANSFER_ADD_ZERO_PACKET
    );
    assert_eq!(LIBUSB_CONTROL_SETUP_SIZE, libusb::LIBUSB_CONTROL_SETUP_SIZE);
}

#[test]
fn bulk_in_makes_room_for_what_comes_in() {
    let plan = TransferPlan::new(
        endpoint(0x81, ENDPOINT_BULK),
        USBIP_URB_SHORT_NOT_OK | USBIP_URB_ZERO_PACKET,
        5,
        setup(),
        &[],
    )
    .unwrap();
    assert_eq!(plan.kind, TransferKind::Bulk);
    assert_eq!(plan.address, 0x81);
    assert_eq!(plan.buffer, vec![0; 5]);
    assert_eq!(plan.data_offset, 0);
    assert!(plan.direction_in);
    assert_eq!(plan.flags, LIBUSB_TRANSFER_SHORT_NOT_OK);
}

#[test]
fn interrupt_out_sends_the_data() {
    let plan = TransferPlan::new(
        endpoint(0x02, ENDPOINT_INTERRUPT),
        USBIP_URB_SHORT_NOT_OK | USBIP_URB_ZERO_PACKET,
        9,
        setup(),
        &[1, 2, 3],
    )
    .unwrap();
    assert_eq!(plan.kind, TransferKind::Interrupt);
    assert_eq!(plan.buffer, [1, 2, 3]);
    assert!(!plan.direction_in);
    assert_eq!(plan.flags, 9);
}

#[test]
fn control_transfers_start_with_the_setup_packet() {
    let out = TransferPlan::new(endpoint(0x00, ENDPOINT_CONTROL), 0, 0, setup(), &[7, 8]).unwrap();
    assert_eq!(out.kind, TransferKind::Control);
    assert_eq!(out.data_offset, 8);
    assert_eq!(
        out.buffer,
        [0x80, 0x06, 0x34, 0x12, 0x78, 0x56, 2, 0, 7, 8]
    );
    let long = TransferPlan::new(endpoint(0x80, ENDPOINT_CONTROL), 0, 0x1_0003, setup(), &[]).unwrap();
    assert_eq!(long.buffer.len(), 8 + 0x1_0003);
    assert_eq!(long.buffer[6..8], [3, 0]);
}

#[test]
fn isochronous_transfers_are_not_supported() {
    let plan = TransferPlan::new(endpoint(0x81, ENDPOINT_ISOCHRONOUS), 0, 4, setup(), &[]);
    assert_eq!(plan.unwrap_err(), ErrorKind::Unsupported);
}

#[test]
fn completions_report_what_was_moved() {
    let mut plan =
        TransferPlan::new(endpoint(0x81, ENDPOINT_BULK), 0, 4, setup(), &[]).unwrap();
    plan.buffer.copy_from_slice(&[1, 2, 3, 4]);
    let done = plan.finish(libusb::LIBUSB_TRANSFER_COMPLETED, 3);
    assert_eq!((done.status, done.actual_length), (0, 3));
    assert_eq!(done.data, [1, 2, 3]);
    // libusb never moves more than it was given, nor less than nothing
    assert_eq!(plan.finish(0, 9).data, [1, 2, 3, 4]);
    let none = plan.finish(libusb::LIBUSB_TRANSFER_CANCELLED, -1);
    assert_eq!((none.status, none.actual_length), (-104, 0));
    assert!(none.data.is_empty());

    let out = TransferPlan::new(endpoint(0x00, ENDPOINT_CONTROL), 0, 0, setup(), &[7, 8]).unwrap();
    let done = out.finish(0, 2);
    assert_eq!(done.actual_length, 2);
    assert!(done.data.is_empty());
}

#[test]
fn refused_transfers_move_nothing() {
    let refused = TransferCompletion::refused(libusb::LIBUSB_ERROR_NO_DEVICE);
    assert_eq!(
        (refused.status, refused.actual_length, refused.data.len()),
        (ENODEV_ERRNO, 0, 0)
    );
}

#[test]
fn cancellation_reaches_the_transfer_in_any_order() {
    let mut before = TransferCancellation::default();
    assert!(!before.is_cancelled());
    assert_eq!(before.cancel(), None);
    assert!(before.is_cancelled());
    before.attach(7);
    assert!(before.mark_submitted(7));

    let mut between = TransferCancellation::default();
    between.attach(7);
    assert_eq!(between.cancel(), None);
    assert!(between.mark_submitted(7));

    let mut after = TransferCancellation::default();
    after.attach(7);
    assert!(!after.mark_submitted(7));
    assert_eq!(after.cancel(), Some(7));
}

#[test]
fn freed_transfers_are_not_cancelled() {
    let mut c = TransferCancellation::default();
    c.attach(7);
    assert!(!c.mark_submitted(7));
    c.detach(8);
    assert_eq!(c.cancel(), Some(7));
    c.detach(7);
    assert_eq!(c.cancel(), None);
    // the callback may run before the submission is noted
    assert!(!c.mark_submitted(7));
    // a second attempt is cancelled as soon as libusb has it
    c.attach(9);
    assert!(c.mark_submitted(9));
}
