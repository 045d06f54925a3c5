use usbip::error::{io_error_to_errno, ErrorKind};
use usbip::session::CompletedSubmit;
use usbip::submit::{next_backoff, Attempt, JobAction, JobEvent, SubmitJob};
use usbip::transfer::{TransferCompletion, TransferKind, ENODEV_ERRNO};
use usbip::usbip_protocol::{UsbIpCommand, UsbIpHeaderBasic, USBIP_CMD_SUBMIT};
use usbip::{UsbDevice, UsbEndpoint, UsbInterface};

fn endpoint(address: u8, attributes: u8) -> UsbEndpoint {
    UsbEndpoint {
        address,
        attributes,
        max_packet_size: 512,
        interval: 0,
    }
}

fn device(host_runtime: Option<u64>) -> UsbDevice {
    let mut device = UsbDevice::default();
    device.ep0_in = endpoint(0x80, 0);
    device.ep0_out = endpoint(0x00, 0);
    device.interfaces = vec![
        UsbInterface {
            interface_class: 0xff,
            interface_subclass: 0,
            interface_protocol: 0,
            endpoints: vec![],
            string_interface: 0,
            class_specific_descriptor: vec![],
        },
        UsbInterface {
            interface_class: 0xff,
            interface_subclass: 0,
            interface_protocol: 0,
            endpoints: vec![endpoint(0x81, 2), endpoint(0x02, 2)],
            string_interface: 0,
            class_specific_descriptor: vec![],
        },
    ];
    device.host_runtime = host_runtime;
    device
}

fn submit(direction: u32, ep: u32, length: u32, data: Vec<u8>) -> UsbIpCommand {
    UsbIpCommand::UsbIpCmdSubmit {
        header: UsbIpHeaderBasic {
            command: USBIP_CMD_SUBMIT.into(),
            seqnum: 77,
            devid: 3,
            direction,
            ep,
        },
        transfer_flags: 1,
        transfer_buffer_length: length,
        start_frame: 0,
        number_of_packets: 0,
        interval: 0,
        setup: [0x80, 0x06, 0x00, 0x01, 0x00, 0x00, 0x40, 0x00],
        data,
        iso_packet_descriptor: vec![],
    }
}

fn job(device: &UsbDevice, command: UsbIpCommand) -> SubmitJob {
    SubmitJob::new(device, command).unwrap()
}

fn done(action: JobAction) -> CompletedSubmit {
    match action {
        JobAction::Done(completed) => {
            assert_eq!(completed.seqnum, 77);
            assert!(completed.response.is_serializable());
            completed
        }
        other => panic!("not done: {:?}", other),
    }
}

fn completion(status: i32, data: Vec<u8>) -> Attempt {
    Attempt::Completed(TransferCompletion {
        status,
        actual_length: data.len() as u32,
        data,
    })
}

#[test]
fn missing_endpoints_are_answered_at_once() {
    let mut urb = job(&device(None), submit(1, 5, 8, vec![]));
    let completed = done(urb.step(JobEvent::Started));
    assert_eq!(completed.status, -2);
    let reply = completed.response.to_bytes();
    assert_eq!(reply[..12], [0, 0, 0, 3, 0, 0, 0, 77, 0, 0, 0, 3]);
    assert_eq!(reply[20..24], (-2i32).to_be_bytes());
    assert_eq!(reply.len(), 48);
    // the direction belongs to the address
    let mut urb = job(&device(None), submit(0, 1, 0, vec![]));
    assert_eq!(done(urb.step(JobEvent::Started)).status, -2);
}

#[test]
fn handlers_answer_reads() {
    let mut urb = job(&device(None), submit(1, 1, 8, vec![]));
    match urb.step(JobEvent::Started) {
        JobAction::Handle(ep, intf) => {
            assert_eq!(ep.address, 0x81);
            assert_eq!(intf, Some(1));
        }
        other => panic!("unexpected: {:?}", other),
    }
    assert_eq!(urb.transfer_buffer_length(), 8);
    assert_eq!(urb.setup().request, 6);
    assert_eq!(urb.setup().value, 0x100);
    let completed = done(urb.step(JobEvent::Handled(vec![1, 2, 3])));
    assert_eq!(completed.status, 0);
    let reply = completed.response.to_bytes();
    assert_eq!(reply[24..28], [0, 0, 0, 3]);
    assert_eq!(reply[48..], [1, 2, 3]);
}

#[test]
fn handlers_answer_writes() {
    let mut urb = job(&device(None), submit(0, 2, 4, vec![1, 2, 3, 4]));
    assert!(matches!(
        urb.step(JobEvent::Started),
        JobAction::Handle(_, Some(1))
    ));
    assert_eq!(urb.data(), [1, 2, 3, 4]);
    let reply = done(urb.step(JobEvent::Handled(vec![]))).response.to_bytes();
    assert_eq!(reply[24..28], [0, 0, 0, 4]);
    assert_eq!(reply.len(), 48);
}

#[test]
fn handler_errors_become_statuses() {
    let mut urb = job(&device(None), submit(1, 0, 8, vec![]));
    assert!(matches!(
        urb.step(JobEvent::Started),
        JobAction::Handle(_, None)
    ));
    let completed = done(urb.step(JobEvent::HandlerFailed(ErrorKind::TimedOut)));
    assert_eq!(completed.status, -110);
    assert_eq!(completed.response.to_bytes().len(), 48);
}

#[test]
fn control_urbs_of_physical_devices_go_to_the_handler() {
    let mut urb = job(&device(Some(1)), submit(1, 0, 8, vec![]));
    assert!(matches!(
        urb.step(JobEvent::Started),
        JobAction::Handle(_, None)
    ));
    assert!(urb.plan().is_err());
}

#[test]
fn other_urbs_of_physical_devices_go_to_libusb() {
    let mut urb = job(&device(Some(1)), submit(1, 1, 8, vec![]));
    assert!(matches!(urb.step(JobEvent::Started), JobAction::Transfer));
    assert_eq!(urb.endpoint().unwrap().address, 0x81);
    let plan = urb.plan().unwrap();
    assert_eq!(plan.kind, TransferKind::Bulk);
    assert_eq!(plan.buffer.len(), 8);
    assert_eq!(plan.flags, 1);
    let completed = done(urb.step(JobEvent::Transferred(completion(-32, vec![5]), false)));
    assert_eq!(completed.status, -32);
    let reply = completed.response.to_bytes();
    assert_eq!(reply[24..28], [0, 0, 0, 1]);
    assert_eq!(reply[48..], [5]);
}

#[test]
fn disconnected_devices_are_reported() {
    let mut urb = job(&device(Some(1)), submit(1, 1, 8, vec![]));
    urb.step(JobEvent::Started);
    let completed = done(urb.step(JobEvent::Transferred(Attempt::NoHandle, false)));
    assert_eq!(completed.status, -107);
}

#[test]
fn transfers_that_cannot_be_made_are_reported() {
    let mut urb = job(&device(Some(1)), submit(1, 1, 8, vec![]));
    urb.step(JobEvent::Started);
    let failed = Attempt::Failed(ErrorKind::Unsupported);
    assert_eq!(done(urb.step(JobEvent::Transferred(failed, false))).status, -95);
}

#[test]
fn lost_devices_are_looked_for_once() {
    let mut urb = job(&device(Some(1)), submit(1, 1, 8, vec![]));
    urb.step(JobEvent::Started);
    let gone = || completion(ENODEV_ERRNO, vec![]);
    assert!(matches!(
        urb.step(JobEvent::Transferred(gone(), false)),
        JobAction::Reconnect
    ));
    assert!(matches!(urb.step(JobEvent::Reconnected), JobAction::Transfer));
    let completed = done(urb.step(JobEvent::Transferred(gone(), false)));
    assert_eq!(completed.status, ENODEV_ERRNO);
}

#[test]
fn found_devices_get_the_urb_again() {
    let mut urb = job(&device(Some(1)), submit(1, 1, 8, vec![]));
    urb.step(JobEvent::Started);
    urb.step(JobEvent::Transferred(completion(ENODEV_ERRNO, vec![]), false));
    urb.step(JobEvent::Reconnected);
    let completed = done(urb.step(JobEvent::Transferred(completion(0, vec![4, 2]), false)));
    assert_eq!(completed.response.to_bytes()[48..], [4, 2]);
}

#[test]
fn devices_that_are_not_found_leave_the_first_result() {
    let mut urb = job(&device(Some(1)), submit(1, 1, 8, vec![]));
    urb.step(JobEvent::Started);
    urb.step(JobEvent::Transferred(completion(ENODEV_ERRNO, vec![8]), false));
    urb.step(JobEvent::Reconnected);
    let completed = done(urb.step(JobEvent::Transferred(Attempt::NoHandle, false)));
    assert_eq!(completed.status, ENODEV_ERRNO);
    assert_eq!(completed.response.to_bytes()[48..], [8]);
}

#[test]
fn cancelled_urbs_are_not_tried_again() {
    let mut urb = job(&device(Some(1)), submit(1, 1, 8, vec![]));
    urb.step(JobEvent::Started);
    let gone = completion(ENODEV_ERRNO, vec![]);
    let completed = done(urb.step(JobEvent::Transferred(gone, true)));
    assert_eq!(completed.status, ENODEV_ERRNO);
}

#[test]
fn only_urbs_make_jobs() {
    let command = UsbIpCommand::OpReqDevlist { status: 0 };
    assert!(SubmitJob::new(&device(None), command).is_none());
}

#[test]
fn io_errors_have_their_errno() {
    for (kind, errno) in [
        (ErrorKind::NotFound, -2),
        (ErrorKind::PermissionDenied, -13),
        (ErrorKind::ConnectionRefused, -111),
        (ErrorKind::ConnectionReset, -104),
        (ErrorKind::ConnectionAborted, -103),
        (ErrorKind::NotConnected, -107),
        (ErrorKind::InvalidInput, -22),
        (ErrorKind::InvalidData, -22),
        (ErrorKind::TimedOut, -110),
        (ErrorKind::Interrupted, -4),
        (ErrorKind::Unsupported, -95),
        (ErrorKind::OutOfMemory, -12),
        (ErrorKind::Other, -5),
        (ErrorKind::BrokenPipe, -5),
    ] {
        assert_eq!(io_error_to_errno(kind), errno);
    }
}

#[test]
fn backoff_doubles_up_to_its_limit() {
    let mut waits = vec![1];
    for _ in 0..7 {
        waits.push(next_backoff(*waits.last().unwrap()));
    }
    assert_eq!(waits, [1, 2, 4, 8, 16, 32, 50, 50]);
    assert_eq!(next_backoff(u64::MAX), 50);
}
