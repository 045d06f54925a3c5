use usbip::decode::Decoded;
use usbip::error::{ErrorKind, ProtocolError};
use usbip::session::{Action, CompletedSubmit, ConnectionError, Event, Outcome, Session};
use usbip::submit::{JobAction, JobEvent, SubmitJob};
use usbip::usbip_protocol::{
    UsbIpCommand, UsbIpHeaderBasic, UsbIpResponse, USBIP_CMD_SUBMIT, USBIP_CMD_UNLINK,
    USBIP_RET_SUBMIT, USBIP_RET_UNLINK,
};
use usbip::{UsbDevice, UsbEndpoint, UsbInterface, UsbIpServer, MAX_PENDING_URBS};

const SINGLE_DEVICE_BUSID: &str = "0-0-0";

fn endpoint(address: u8, attributes: u8) -> UsbEndpoint {
    UsbEndpoint {
        address,
        attributes,
        max_packet_size: 512,
        interval: 0,
    }
}

fn device(bus_id: &str) -> UsbDevice {
    let mut device = UsbDevice::default();
    device.bus_id = bus_id.to_string();
    device.ep0_in = endpoint(0x80, 0);
    device.ep0_out = endpoint(0x00, 0);
    device.interfaces = vec![UsbInterface {
        interface_class: 2,
        interface_subclass: 2,
        interface_protocol: 0,
        endpoints: vec![endpoint(0x81, 3), endpoint(0x82, 2), endpoint(0x02, 2)],
        string_interface: 0,
        class_specific_descriptor: vec![],
    }];
    device
}

fn new_server_with_single_device() -> UsbIpServer {
    UsbIpServer::new_simulated(vec![device(SINGLE_DEVICE_BUSID)])
}

fn op_req_import(busid: &str) -> UsbIpCommand {
    let mut busid = busid.as_bytes().to_vec();
    busid.resize(32, 0);
    UsbIpCommand::OpReqImport {
        status: 0,
        busid: busid.try_into().unwrap(),
    }
}

fn header(command: u16, seqnum: u32, devid: u32, direction: u32, ep: u32) -> UsbIpHeaderBasic {
    UsbIpHeaderBasic {
        command: command.into(),
        seqnum,
        devid,
        direction,
        ep,
    }
}

fn submit_to(seqnum: u32, devid: u32, direction: u32, ep: u32, data: Vec<u8>) -> UsbIpCommand {
    UsbIpCommand::UsbIpCmdSubmit {
        header: header(USBIP_CMD_SUBMIT, seqnum, devid, direction, ep),
        transfer_flags: 0,
        transfer_buffer_length: data.len() as u32,
        start_frame: 0,
        number_of_packets: 0,
        interval: 0,
        setup: [0x80, 0x06, 0x00, 0x01, 0x00, 0x00, 0x40, 0x00],
        data,
        iso_packet_descriptor: vec![],
    }
}

fn submit(seqnum: u32) -> UsbIpCommand {
    submit_to(seqnum, 0, 1, 0, vec![])
}

fn unlink(seqnum: u32, of: u32) -> UsbIpCommand {
    UsbIpCommand::UsbIpCmdUnlink {
        header: header(USBIP_CMD_UNLINK, seqnum, 0, 0, 0),
        unlink_seqnum: of,
    }
}

fn completed(seqnum: u32, status: i32, data: Vec<u8>) -> CompletedSubmit {
    CompletedSubmit {
        seqnum,
        status,
        response: UsbIpResponse::usbip_ret_submit_result(
            &header(USBIP_RET_SUBMIT, seqnum, 0, 1, 0),
            status,
            0,
            0,
            data.len() as u32,
            data,
            vec![],
        ),
    }
}

fn sent(action: Action) -> Vec<u8> {
    match action {
        Action::Send(response) => {
            assert!(response.is_serializable());
            response.to_bytes()
        }
        other => panic!("nothing sent: {:?}", other),
    }
}

fn closed(action: Action) -> Outcome {
    match action {
        Action::Close(outcome) => outcome,
        other => panic!("not closed: {:?}", other),
    }
}

fn violated(error: ProtocolError) -> Outcome {
    Outcome::Failed(ConnectionError::Protocol(error))
}

/// Serves a client that sends `input` and then closes the connection, with a
/// device that answers every URB with `answer`, and returns what was sent back
/// and how the connection ended.
fn serve(server: &mut UsbIpServer, input: &[u8], answer: &[u8]) -> (Vec<u8>, Outcome) {
    let mut session = Session::new();
    let mut output = vec![];
    let mut read = 0;
    let mut done = vec![];
    let mut written = false;
    loop {
        let event = if written {
            Event::Written
        } else if let Some(completed) = done.pop() {
            Event::Completed(completed)
        } else {
            match UsbIpCommand::decode(&input[read..]) {
                Decoded::Complete(command, n) => {
                    read += n;
                    Event::Command(command)
                }
                Decoded::Invalid(error) => Event::ReadFailed(ConnectionError::Protocol(error)),
                Decoded::Incomplete(_) => {
                    Event::ReadFailed(ConnectionError::Io(ErrorKind::UnexpectedEof))
                }
            }
        };
        written = false;
        match session.step(server, event) {
            Action::Send(response) => {
                assert!(response.is_serializable());
                output.extend(response.to_bytes());
                written = true;
            }
            Action::Start(device, command) => {
                let mut job = SubmitJob::new(&device, command).unwrap();
                let mut event = JobEvent::Started;
                loop {
                    match job.step(event) {
                        JobAction::Handle(..) => event = JobEvent::Handled(answer.to_vec()),
                        JobAction::Done(completed) => {
                            done.push(completed);
                            break;
                        }
                        other => panic!("unexpected: {:?}", other),
                    }
                }
            }
            Action::Close(outcome) => return (output, outcome),
            _ => {}
        }
    }
}

/// Imports a device and returns the status of the reply.
fn attach_device(session: &mut Session, server: &mut UsbIpServer, busid: &str) -> u32 {
    let reply = sent(session.step(server, Event::Command(op_req_import(busid))));
    let status = u32::from_be_bytes(reply[4..8].try_into().unwrap());
    assert_eq!(reply.len(), if status == 0 { 8 + 0x138 } else { 8 });
    assert!(matches!(session.step(server, Event::Written), Action::Wait));
    status
}

fn eof() -> Event {
    Event::ReadFailed(ConnectionError::Io(ErrorKind::UnexpectedEof))
}

#[test]
fn req_empty_devlist() {
    let mut server = UsbIpServer::new_simulated(vec![]);
    let req = UsbIpCommand::OpReqDevlist { status: 0 };
    let (output, outcome) = serve(&mut server, &req.to_bytes(), &[]);
    assert_eq!(output, UsbIpResponse::op_rep_devlist(&[]).to_bytes());
    assert_eq!(outcome, Outcome::Closed);
}

#[test]
fn req_sample_devlist() {
    let mut server = new_server_with_single_device();
    let req = UsbIpCommand::OpReqDevlist { status: 0 };
    let (output, _) = serve(&mut server, &req.to_bytes(), &[]);
    // OP_REP_DEVLIST
    // header: 0xC
    // device: 0x138
    // interface: 4 * 0x1
    assert_eq!(output.len(), 0xC + 0x138 + 4);
}

#[test]
fn req_import() {
    let mut server = new_server_with_single_device();
    let (output, _) = serve(&mut server, &op_req_import(SINGLE_DEVICE_BUSID).to_bytes(), &[]);
    assert_eq!(output.len(), 0x140);
    assert_eq!(server.available_device_count(), 1);
}

#[test]
fn req_import_get_device_desc() {
    let mut server = new_server_with_single_device();
    let mut req = op_req_import(SINGLE_DEVICE_BUSID).to_bytes();
    req.extend(submit(1).to_bytes());
    let (output, _) = serve(&mut server, &req, &[0x12; 0x12]);
    // OP_REQ_IMPORT + USBIP_CMD_SUBMIT + Device Descriptor
    assert_eq!(output.len(), 0x140 + 0x30 + 0x12);
}

#[test]
fn send_usb_traffic_while_adding_and_removing_devices() {
    let mut server = new_server_with_single_device();
    let mut session = Session::new();
    assert_eq!(attach_device(&mut session, &mut server, SINGLE_DEVICE_BUSID), 0);
    for seqnum in 0..8 {
        let added = format!("0-0-{}", 1 + seqnum % 3);
        server.add_device(device(&added));
        let urb = submit_to(seqnum, 0, 0, 2, vec![1, 2, 3, 4, 5, 6, 7, 8]);
        let (device, command) = match session.step(&mut server, Event::Command(urb)) {
            Action::Start(device, command) => (device, command),
            other => panic!("not started: {:?}", other),
        };
        server.remove_device(&added).unwrap();
        let mut job = SubmitJob::new(&device, command).unwrap();
        assert!(matches!(job.step(JobEvent::Started), JobAction::Handle(..)));
        let completed = match job.step(JobEvent::Handled(vec![])) {
            JobAction::Done(completed) => completed,
            other => panic!("not done: {:?}", other),
        };
        let reply = sent(session.step(&mut server, Event::Completed(completed)));
        assert_eq!(reply.len(), 4 * 12);
        // actual_length of what was written
        assert_eq!(reply[24..28], [0, 0, 0, 8]);
    }
    assert_eq!(server.available_device_count(), 0);
}

#[test]
fn only_single_connection_allowed_to_device() {
    let mut server = new_server_with_single_device();
    let mut first = Session::new();
    let mut second = Session::new();
    assert_eq!(attach_device(&mut first, &mut server, SINGLE_DEVICE_BUSID), 0);
    assert_eq!(attach_device(&mut second, &mut server, SINGLE_DEVICE_BUSID), 1);
    // the owner itself may import it again
    assert_eq!(attach_device(&mut first, &mut server, SINGLE_DEVICE_BUSID), 0);
}

#[test]
fn device_gets_released_on_closed_socket() {
    let mut server = new_server_with_single_device();
    let mut session = Session::new();
    assert_eq!(attach_device(&mut session, &mut server, SINGLE_DEVICE_BUSID), 0);
    assert_eq!(closed(session.step(&mut server, eof())), Outcome::Closed);

    let mut session = Session::new();
    assert_eq!(attach_device(&mut session, &mut server, SINGLE_DEVICE_BUSID), 0);
}

#[test]
fn device_gets_released_after_protocol_error() {
    let mut server = new_server_with_single_device();
    let mut session = Session::new();
    assert_eq!(attach_device(&mut session, &mut server, SINGLE_DEVICE_BUSID), 0);

    // Submit with a mismatched devid: the connection must fail, and the
    // imported device must still be released.
    let bad_submit = submit_to(1, 0xffff, 1, 0, vec![]);
    let outcome = closed(session.step(&mut server, Event::Command(bad_submit)));
    assert_eq!(
        outcome,
        violated(ProtocolError::DevidMismatch {
            devid: 0xffff,
            expected: 0,
        })
    );

    // The device must be back in the available pool despite the error.
    let mut next = Session::new();
    assert_eq!(attach_device(&mut next, &mut server, SINGLE_DEVICE_BUSID), 0);
}

#[test]
fn second_import_releases_previous_device() {
    let mut server = UsbIpServer::new_simulated(vec![device("0-0-0"), device("0-0-1")]);
    let mut connection = Session::new();
    assert_eq!(attach_device(&mut connection, &mut server, "0-0-0"), 0);
    // Importing a second device on the SAME connection must not leak the
    // first one.
    assert_eq!(attach_device(&mut connection, &mut server, "0-0-1"), 0);
    assert!(!server.in_use("0-0-0"));
    closed(connection.step(&mut server, eof()));

    // Both devices must be importable again by a fresh connection.
    let mut next = Session::new();
    assert_eq!(attach_device(&mut next, &mut server, "0-0-0"), 0);
    closed(next.step(&mut server, eof()));
    let mut next = Session::new();
    assert_eq!(attach_device(&mut next, &mut server, "0-0-1"), 0);
}

#[test]
fn failed_import_releases_the_device_too() {
    let mut server = new_server_with_single_device();
    let mut session = Session::new();
    assert_eq!(attach_device(&mut session, &mut server, SINGLE_DEVICE_BUSID), 0);
    assert_eq!(attach_device(&mut session, &mut server, "9-9-9"), 1);
    assert_eq!(server.available_device_count(), 1);
    let outcome = closed(session.step(&mut server, Event::Command(submit(1))));
    assert_eq!(outcome, violated(ProtocolError::NoImportedDevice));
}

#[test]
fn urbs_need_a_device() {
    let mut server = new_server_with_single_device();
    let mut session = Session::new();
    let outcome = closed(session.step(&mut server, Event::Command(submit(1))));
    assert_eq!(outcome, violated(ProtocolError::NoImportedDevice));
    let error = ProtocolError::NoImportedDevice;
    assert_eq!(error.message(), "no imported device");
    assert_eq!(error.kind(), ErrorKind::NotConnected);
}

#[test]
fn sequence_numbers_in_flight_are_not_used_twice() {
    let mut server = new_server_with_single_device();
    let mut session = Session::new();
    attach_device(&mut session, &mut server, SINGLE_DEVICE_BUSID);
    assert!(matches!(
        session.step(&mut server, Event::Command(submit(5))),
        Action::Start(..)
    ));
    assert!(session.has_pending());
    let outcome = closed(session.step(&mut server, Event::Command(submit(5))));
    assert_eq!(outcome, violated(ProtocolError::DuplicateSeqnum(5)));
    assert_eq!(
        ProtocolError::DuplicateSeqnum(5).message(),
        "duplicate USB/IP sequence number 5"
    );
    assert!(!session.has_pending());
    assert_eq!(server.available_device_count(), 1);
}

#[test]
fn sequence_numbers_can_be_used_again_once_answered() {
    let mut server = new_server_with_single_device();
    let mut session = Session::new();
    attach_device(&mut session, &mut server, SINGLE_DEVICE_BUSID);
    for _ in 0..3 {
        assert!(matches!(
            session.step(&mut server, Event::Command(submit(5))),
            Action::Start(..)
        ));
        let reply = sent(session.step(&mut server, Event::Completed(completed(5, 0, vec![9]))));
        assert_eq!(reply[..8], [0, 0, 0, 3, 0, 0, 0, 5]);
        assert_eq!(reply.len(), 49);
    }
}

#[test]
fn urbs_in_flight_are_limited() {
    let mut server = new_server_with_single_device();
    let mut session = Session::new();
    attach_device(&mut session, &mut server, SINGLE_DEVICE_BUSID);
    for seqnum in 0..MAX_PENDING_URBS as u32 {
        assert!(matches!(
            session.step(&mut server, Event::Command(submit(seqnum))),
            Action::Start(..)
        ));
    }
    let one_more = submit(MAX_PENDING_URBS as u32);
    let outcome = closed(session.step(&mut server, Event::Command(one_more)));
    assert_eq!(outcome, violated(ProtocolError::TooManyPendingUrbs));
    assert_eq!(
        ProtocolError::TooManyPendingUrbs.message(),
        "too many pending URBs (limit 256)"
    );
    assert_eq!(
        ProtocolError::TooManyPendingUrbs.kind(),
        ErrorKind::OutOfMemory
    );
}

#[test]
fn devid_is_bus_and_device_number() {
    let mut shared = device("1-11-13");
    shared.bus_num = 1;
    shared.dev_num = 11;
    assert_eq!(shared.devid(), 0x1_000b);
    let mut server = UsbIpServer::new_simulated(vec![shared]);
    let mut session = Session::new();
    attach_device(&mut session, &mut server, "1-11-13");
    assert!(matches!(
        session.step(
            &mut server,
            Event::Command(submit_to(1, 0x1_000b, 1, 0, vec![]))
        ),
        Action::Start(..)
    ));
    closed(session.step(
        &mut server,
        Event::Command(submit_to(2, 0x1_000d, 1, 0, vec![])),
    ));
    assert_eq!(
        ProtocolError::DevidMismatch {
            devid: 0x1_000d,
            expected: 0x1_000b
        }
        .message(),
        "devid 0x1000d does not match imported device 0x1000b"
    );
}

#[test]
fn unlink_of_an_urb_in_flight_is_answered_when_it_is_done() {
    let mut server = new_server_with_single_device();
    let mut session = Session::new();
    attach_device(&mut session, &mut server, SINGLE_DEVICE_BUSID);
    session.step(&mut server, Event::Command(submit(5)));
    assert!(matches!(
        session.step(&mut server, Event::Command(unlink(6, 5))),
        Action::Cancel(5)
    ));
    // a second unlink is answered at once
    let again = sent(session.step(&mut server, Event::Command(unlink(7, 5))));
    assert_eq!(
        again,
        UsbIpResponse::usbip_ret_unlink_success(&header(USBIP_RET_UNLINK, 7, 0, 0, 0)).to_bytes()
    );
    // the URB itself gets no reply of its own
    let reply = sent(session.step(&mut server, Event::Completed(completed(5, -104, vec![]))));
    assert_eq!(
        reply,
        UsbIpResponse::usbip_ret_unlink_result(&header(USBIP_RET_UNLINK, 6, 0, 0, 0), -104)
            .to_bytes()
    );
    assert_eq!(reply[20..24], (-104i32).to_be_bytes());
    assert!(!session.has_pending());
}

#[test]
fn unlink_of_anything_else_is_answered_at_once() {
    let mut server = new_server_with_single_device();
    let mut session = Session::new();
    let reply = sent(session.step(&mut server, Event::Command(unlink(7, 5))));
    assert_eq!(reply[..8], [0, 0, 0, 4, 0, 0, 0, 7]);
    assert_eq!(reply[20..24], [0; 4]);
    assert_eq!(reply.len(), 48);
}

#[test]
fn unknown_completions_are_dropped() {
    let mut server = new_server_with_single_device();
    let mut session = Session::new();
    assert!(matches!(
        session.step(&mut server, Event::Completed(completed(5, 0, vec![]))),
        Action::Wait
    ));
    assert!(matches!(
        session.step(&mut server, Event::WorkersClosed),
        Action::Wait
    ));
}

#[test]
fn urbs_are_drained_after_a_half_close() {
    let mut server = new_server_with_single_device();
    let mut session = Session::new();
    attach_device(&mut session, &mut server, SINGLE_DEVICE_BUSID);
    session.step(&mut server, Event::Command(submit(1)));
    session.step(&mut server, Event::Command(submit(2)));
    assert!(matches!(
        session.step(&mut server, eof()),
        Action::CancelAll
    ));
    assert!(!session.is_running());
    // no more commands are taken
    assert!(matches!(
        session.step(&mut server, Event::Command(submit(3))),
        Action::Wait
    ));
    sent(session.step(&mut server, Event::Completed(completed(2, -104, vec![]))));
    assert!(matches!(
        session.step(&mut server, Event::Written),
        Action::Wait
    ));
    assert!(server.in_use(SINGLE_DEVICE_BUSID));
    sent(session.step(&mut server, Event::Completed(completed(1, 0, vec![1]))));
    let outcome = closed(session.step(&mut server, Event::Written));
    assert_eq!(outcome, Outcome::Closed);
    assert!(!server.in_use(SINGLE_DEVICE_BUSID));
}

#[test]
fn draining_has_a_deadline() {
    let mut server = new_server_with_single_device();
    let mut session = Session::new();
    attach_device(&mut session, &mut server, SINGLE_DEVICE_BUSID);
    session.step(&mut server, Event::Command(submit(1)));
    let timeout = ConnectionError::Protocol(ProtocolError::CommandTimedOut);
    assert_eq!(timeout.kind(), ErrorKind::TimedOut);
    assert_eq!(
        ProtocolError::CommandTimedOut.message(),
        "timed out waiting for USB/IP command"
    );
    assert!(matches!(
        session.step(&mut server, Event::ReadFailed(timeout)),
        Action::CancelAll
    ));
    let outcome = closed(session.step(&mut server, Event::DrainTimedOut));
    assert_eq!(outcome, Outcome::Failed(timeout));
    assert_eq!(server.available_device_count(), 1);
    // nothing more happens
    let late = session.step(&mut server, Event::Completed(completed(1, 0, vec![])));
    assert_eq!(closed(late), Outcome::Failed(timeout));
}

#[test]
fn a_failed_write_closes_the_connection() {
    let mut server = new_server_with_single_device();
    let mut session = Session::new();
    attach_device(&mut session, &mut server, SINGLE_DEVICE_BUSID);
    session.step(&mut server, Event::Command(submit(1)));
    let outcome = closed(session.step(&mut server, Event::WriteFailed(ErrorKind::BrokenPipe)));
    assert_eq!(
        outcome,
        Outcome::Failed(ConnectionError::Io(ErrorKind::BrokenPipe))
    );
    assert_eq!(server.available_device_count(), 1);
}

#[test]
fn lost_workers_close_the_connection() {
    let mut server = new_server_with_single_device();
    let mut session = Session::new();
    attach_device(&mut session, &mut server, SINGLE_DEVICE_BUSID);
    session.step(&mut server, Event::Command(submit(1)));
    let outcome = closed(session.step(&mut server, Event::WorkersClosed));
    assert_eq!(outcome, violated(ProtocolError::WorkersClosed));
    assert_eq!(
        ConnectionError::Protocol(ProtocolError::WorkersClosed).kind(),
        ErrorKind::BrokenPipe
    );
    assert_eq!(server.available_device_count(), 1);
}

#[test]
fn violations_end_a_connection_with_their_reason() {
    let mut server = new_server_with_single_device();
    let mut req = op_req_import(SINGLE_DEVICE_BUSID).to_bytes();
    req.extend([1, 0x11, 0x10, 5]);
    let (output, outcome) = serve(&mut server, &req, &[]);
    assert_eq!(output.len(), 0x140);
    assert_eq!(outcome, violated(ProtocolError::UnknownCommand(0x1005)));
    assert_eq!(server.available_device_count(), 1);
}
