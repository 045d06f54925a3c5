use usbip::decode::{CommandReader, Decoded};
use usbip::error::{ErrorKind, ProtocolError};
use usbip::usbip_protocol::{
    UsbIpCommand, UsbIpHeaderBasic, DIRECTION_IN, DIRECTION_OUT, MAX_NUMBER_OF_PACKETS,
    MAX_TRANSFER_BUFFER_LENGTH, NO_PACKETS, USBIP_CMD_SUBMIT, USBIP_CMD_UNLINK, USBIP_VERSION,
};

fn read(bytes: &[u8]) -> (UsbIpCommand, usize) {
    match UsbIpCommand::decode(bytes) {
        Decoded::Complete(command, n) => (command, n),
        other => panic!("not a command: {:?}", other),
    }
}

fn violation(bytes: &[u8]) -> ProtocolError {
    match UsbIpCommand::decode(bytes) {
        Decoded::Invalid(error) => error,
        other => panic!("no violation: {:?}", other),
    }
}

fn missing(bytes: &[u8]) -> usize {
    match UsbIpCommand::decode(bytes) {
        Decoded::Incomplete(n) => n,
        other => panic!("nothing missing: {:?}", other),
    }
}

/// Reads a command one step at a time, as a server reads it off a socket, and
/// returns what was asked for on the way.
fn stream(bytes: &[u8]) -> Vec<usize> {
    let mut asked = vec![];
    let mut have = 0;
    while let Decoded::Incomplete(n) = UsbIpCommand::decode(&bytes[..have]) {
        asked.push(n);
        have = n;
    }
    asked
}

fn header(command: u16, direction: u32) -> UsbIpHeaderBasic {
    UsbIpHeaderBasic {
        command: command.into(),
        seqnum: 1,
        devid: 2,
        direction,
        ep: 4,
    }
}

#[test]
fn read_op_req_devlist_from_socket() {
    let cmd = UsbIpCommand::OpReqDevlist { status: 0 };
    assert_eq!(cmd.to_bytes(), read(&cmd.to_bytes()).0.to_bytes());
}

#[test]
fn read_op_req_import_from_socket() {
    let cmd = UsbIpCommand::OpReqImport {
        status: 0,
        busid: {
            let mut b = "0-0-0".as_bytes().to_vec();
            b.resize(32, 0);
            b.as_slice().try_into().unwrap()
        },
    };
    assert_eq!(cmd.to_bytes(), read(&cmd.to_bytes()).0.to_bytes());
}

#[test]
fn read_usbip_cmd_submit_from_socket() {
    let cmd = UsbIpCommand::UsbIpCmdSubmit {
        header: header(USBIP_CMD_SUBMIT, DIRECTION_OUT),
        transfer_flags: 5,
        transfer_buffer_length: 4,
        start_frame: 7,
        number_of_packets: 1,
        interval: 9,
        setup: [0x00, 0x01, 0x02, 0x03, 0x04, 0x05, 0x06, 0x07],
        data: vec![0x08, 0x09, 0x0A, 0x0B],
        iso_packet_descriptor: vec![0xFF; 16],
    };
    let bytes = cmd.to_bytes();
    assert_eq!(bytes, read(&bytes).0.to_bytes());
    assert_eq!(read(&bytes), (cmd, 48 + 4 + 16));
    assert_eq!(stream(&bytes), [2, 4, 20, 40, 68]);
}

#[test]
fn read_usbip_cmd_submit_from_socket_with_no_data() {
    let cmd = UsbIpCommand::UsbIpCmdSubmit {
        header: header(USBIP_CMD_SUBMIT, DIRECTION_IN),
        transfer_flags: 5,
        transfer_buffer_length: 64,
        start_frame: 7,
        number_of_packets: 1,
        interval: 9,
        setup: [0x00, 0x01, 0x02, 0x03, 0x04, 0x05, 0x06, 0xFF],
        data: vec![],
        iso_packet_descriptor: vec![0xFF; 16],
    };
    let bytes = cmd.to_bytes();
    assert_eq!(bytes, read(&bytes).0.to_bytes());
    assert_eq!(read(&bytes).1, 64);
}

#[test]
fn read_usbip_cmd_unlink_from_socket() {
    let cmd = UsbIpCommand::UsbIpCmdUnlink {
        header: header(USBIP_CMD_UNLINK, DIRECTION_OUT),
        unlink_seqnum: 1,
    };
    let bytes = cmd.to_bytes();
    assert_eq!(bytes, read(&bytes).0.to_bytes());
    assert_eq!(stream(&bytes), [2, 4, 20, 48]);
}

#[test]
fn byte_serialization_fails_on_old_usbip_version() {
    let cmd = UsbIpCommand::OpReqDevlist { status: 0 };
    let mut bytes = cmd.to_bytes();
    bytes[1] = 0x10; // set version to 0x0110

    assert_eq!(
        violation(&bytes).message(),
        "Unknown version: 0x110".to_string()
    );
    assert_eq!(violation(&bytes).kind(), ErrorKind::Other);
}

#[test]
fn byte_serialization_fails_on_invalid_command() {
    let cmd = UsbIpCommand::OpReqDevlist { status: 0 };
    let mut bytes = cmd.to_bytes();
    bytes[2] = 0x10; // set command to 0x1005

    assert_eq!(
        violation(&bytes).message(),
        "Unknown command: 0x1005".to_string()
    );
}

fn submit_with(buffer_length: u32, number_of_packets: u32) -> Vec<u8> {
    // direction In → no data section on the wire.
    let mut bytes = Vec::new();
    bytes.extend_from_slice(&USBIP_VERSION.to_be_bytes());
    bytes.extend_from_slice(&USBIP_CMD_SUBMIT.to_be_bytes());
    bytes.extend_from_slice(&1u32.to_be_bytes()); // seqnum
    bytes.extend_from_slice(&0u32.to_be_bytes()); // devid
    bytes.extend_from_slice(&1u32.to_be_bytes()); // direction = In
    bytes.extend_from_slice(&4u32.to_be_bytes()); // ep
    bytes.extend_from_slice(&0u32.to_be_bytes()); // transfer_flags
    bytes.extend_from_slice(&buffer_length.to_be_bytes()); // transfer_buffer_length
    bytes.extend_from_slice(&0u32.to_be_bytes()); // start_frame
    bytes.extend_from_slice(&number_of_packets.to_be_bytes()); // number_of_packets
    bytes.extend_from_slice(&0u32.to_be_bytes()); // interval
    bytes.extend_from_slice(&[0u8; 8]); // setup
    bytes
}

#[test]
fn submit_rejects_oversized_transfer_buffer() {
    let bytes = submit_with(MAX_TRANSFER_BUFFER_LENGTH + 1, 0);
    assert!(violation(&bytes).message().contains("exceeds limit"));
    assert_eq!(
        violation(&bytes).message(),
        "transfer_buffer_length 16777217 exceeds limit 16777216"
    );
}

#[test]
fn submit_rejects_oversized_iso_packet_count() {
    let bytes = submit_with(0, MAX_NUMBER_OF_PACKETS + 1);
    assert!(violation(&bytes).message().contains("exceeds limit"));
    assert_eq!(
        violation(&bytes),
        ProtocolError::TooManyPackets(MAX_NUMBER_OF_PACKETS + 1)
    );
}

#[test]
fn submit_rejects_invalid_direction() {
    let mut bytes = submit_with(0, 0);
    // direction field at offset 4 (version+command) + 4 (seqnum) + 4 (devid)
    let offset = 2 + 2 + 4 + 4;
    bytes[offset..offset + 4].copy_from_slice(&7u32.to_be_bytes());
    assert!(violation(&bytes).message().contains("invalid direction"));
    assert_eq!(violation(&bytes).kind(), ErrorKind::InvalidData);
}

#[test]
fn submit_rejects_oversized_endpoint() {
    let mut bytes = submit_with(0, 0);
    let offset = 2 + 2 + 4 + 4 + 4;
    bytes[offset..offset + 4].copy_from_slice(&300u32.to_be_bytes());
    assert!(violation(&bytes)
        .message()
        .contains("invalid endpoint number"));
}

#[test]
fn limits_themselves_are_accepted() {
    let bytes = submit_with(MAX_TRANSFER_BUFFER_LENGTH, 0);
    assert_eq!(read(&bytes).1, 48);
    let bytes = submit_with(0, NO_PACKETS);
    assert_eq!(read(&bytes).1, 48);
    let bytes = submit_with(0, MAX_NUMBER_OF_PACKETS);
    assert_eq!(missing(&bytes), 48 + 16 * 4096);
}

#[test]
fn statuses_other_than_zero_are_refused() {
    let devlist = UsbIpCommand::OpReqDevlist { status: 7 }.to_bytes();
    assert_eq!(violation(&devlist), ProtocolError::DevlistStatus(7));
    let import = UsbIpCommand::OpReqImport {
        status: 9,
        busid: [0; 32],
    }
    .to_bytes();
    assert_eq!(violation(&import[..8]), ProtocolError::ImportStatus(9));
}

#[test]
fn version_zero_is_read_as_well() {
    let mut bytes = UsbIpCommand::OpReqDevlist { status: 0 }.to_bytes();
    bytes[0] = 0;
    bytes[1] = 0;
    assert_eq!(read(&bytes), (UsbIpCommand::OpReqDevlist { status: 0 }, 8));
}

#[test]
fn violations_are_found_before_the_rest_arrives() {
    assert_eq!(violation(&[1, 0x12]), ProtocolError::UnknownVersion(0x112));
    assert_eq!(violation(&[0, 1]).message(), "Unknown version: 0x01");
    assert_eq!(
        violation(&[1, 0x11, 0, 9]),
        ProtocolError::UnknownCommand(9)
    );
    let bytes = submit_with(MAX_TRANSFER_BUFFER_LENGTH + 1, 0);
    assert_eq!(missing(&bytes[..39]), 40);
    assert_eq!(
        violation(&bytes[..40]),
        ProtocolError::TransferBufferTooLong(MAX_TRANSFER_BUFFER_LENGTH + 1)
    );
}

#[test]
fn the_next_command_is_left_alone() {
    let mut bytes = UsbIpCommand::OpReqDevlist { status: 0 }.to_bytes();
    bytes.extend_from_slice(&submit_with(0, 0));
    let (first, n) = read(&bytes);
    assert_eq!(first, UsbIpCommand::OpReqDevlist { status: 0 });
    assert_eq!(n, 8);
    let (second, m) = read(&bytes[n..]);
    assert!(matches!(second, UsbIpCommand::UsbIpCmdSubmit { .. }));
    assert_eq!(n + m, bytes.len());
}

#[test]
fn commands_arrive_in_any_pieces() {
    let mut bytes = UsbIpCommand::OpReqDevlist { status: 0 }.to_bytes();
    bytes.extend_from_slice(&submit_with(0, 0));
    let unlink = UsbIpCommand::UsbIpCmdUnlink {
        header: header(USBIP_CMD_UNLINK, DIRECTION_OUT),
        unlink_seqnum: 1,
    };
    bytes.extend_from_slice(&unlink.to_bytes());
    for piece in [1, 3, 7, 48, 1000] {
        let mut reader = CommandReader::new();
        let mut commands = vec![];
        for bytes in bytes.chunks(piece) {
            reader.feed(bytes);
            loop {
                match reader.next() {
                    Decoded::Complete(command, _) => commands.push(command),
                    Decoded::Incomplete(n) => {
                        assert!(n > reader.len());
                        break;
                    }
                    Decoded::Invalid(error) => panic!("{:?}", error),
                }
            }
        }
        assert_eq!(reader.len(), 0);
        assert_eq!(commands.len(), 3);
        assert_eq!(commands[0], UsbIpCommand::OpReqDevlist { status: 0 });
        assert_eq!(commands[1].to_bytes().len(), 48);
        assert_eq!(commands[2], unlink);
    }
}

#[test]
fn a_violation_stays_in_the_way() {
    let mut reader = CommandReader::new();
    reader.feed(&[9, 9, 0, 0]);
    for _ in 0..2 {
        assert!(matches!(
            reader.next(),
            Decoded::Invalid(ProtocolError::UnknownVersion(0x909))
        ));
    }
}
