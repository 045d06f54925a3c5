use usbip::device::UsbDevice;
use usbip::usbip_protocol::{
    UsbIpCommand, UsbIpHeaderBasic, UsbIpResponse, DIRECTION_IN, DIRECTION_OUT, USBIP_RET_SUBMIT,
    USBIP_RET_UNLINK,
};

fn example_device() -> UsbDevice {
    UsbDevice::default()
}

#[test]
fn byte_serialize_op_req_devlist() {
    let cmd = UsbIpCommand::OpReqDevlist { status: 0 };
    assert_eq!(
        cmd.to_bytes(),
        [
            0x01, 0x11, // version,
            0x80, 0x05, // command
            0x00, 0x00, 0x00, 0x00, // status
        ]
    );
}

#[test]
fn byte_serialize_op_req_import() {
    let cmd = UsbIpCommand::OpReqImport {
        status: 0,
        busid: [0; 32],
    };
    assert_eq!(
        cmd.to_bytes(),
        [
            0x01, 0x11, // version,
            0x80, 0x03, // command
            0x00, 0x00, 0x00, 0x00, // status
            0x00, 0x00, 0x00, 0x00, // busid
            0x00, 0x00, 0x00, 0x00, //
            0x00, 0x00, 0x00, 0x00, //
            0x00, 0x00, 0x00, 0x00, //
            0x00, 0x00, 0x00, 0x00, //
            0x00, 0x00, 0x00, 0x00, //
            0x00, 0x00, 0x00, 0x00, //
            0x00, 0x00, 0x00, 0x00, //
        ]
    );
}

#[test]
fn byte_serialize_usbip_cmd_submit() {
    let cmd = UsbIpCommand::UsbIpCmdSubmit {
        header: UsbIpHeaderBasic {
            command: 1,
            seqnum: 2,
            devid: 3,
            direction: 4,
            ep: 5,
        },
        transfer_flags: 0,
        transfer_buffer_length: 0,
        start_frame: 6,
        number_of_packets: 0,
        interval: 7,
        setup: [0xFF; 8],
        data: vec![],
        iso_packet_descriptor: vec![],
    };
    assert_eq!(
        cmd.to_bytes(),
        [
            0x00, 0x00, 0x00, 0x01, // command
            0x00, 0x00, 0x00, 0x02, // seqnum
            0x00, 0x00, 0x00, 0x03, // devid
            0x00, 0x00, 0x00, 0x04, // direction
            0x00, 0x00, 0x00, 0x05, // ep
            0x00, 0x00, 0x00, 0x00, // transfer_flags
            0x00, 0x00, 0x00, 0x00, // transfer_buffer_length
            0x00, 0x00, 0x00, 0x06, // start_frame
            0x00, 0x00, 0x00, 0x00, // number_of_packets
            0x00, 0x00, 0x00, 0x07, // interval
            0xFF, 0xFF, 0xFF, 0xFF, // setup
            0xFF, 0xFF, 0xFF, 0xFF,
            // data
            // iso_packet_descriptor
        ]
    );
}

#[test]
fn byte_serialize_usbip_cmd_unlink() {
    let cmd = UsbIpCommand::UsbIpCmdUnlink {
        header: UsbIpHeaderBasic {
            command: 0,
            seqnum: 1,
            devid: 2,
            direction: 3,
            ep: 4,
        },
        unlink_seqnum: 5,
    };
    assert_eq!(
        cmd.to_bytes(),
        [
            0x00, 0x00, 0x00, 0x00, // command
            0x00, 0x00, 0x00, 0x01, // seqnum
            0x00, 0x00, 0x00, 0x02, // devid
            0x00, 0x00, 0x00, 0x03, // direction
            0x00, 0x00, 0x00, 0x04, // ep
            0x00, 0x00, 0x00, 0x05, // unlink_seqnum
            0x00, 0x00, 0x00, 0x00, // padding
            0x00, 0x00, 0x00, 0x00, //
            0x00, 0x00, 0x00, 0x00, //
            0x00, 0x00, 0x00, 0x00, //
            0x00, 0x00, 0x00, 0x00, //
            0x00, 0x00, 0x00, 0x00, //
        ]
    );
}

#[test]
fn byte_serialize_op_rep_devlist() {
    let device = example_device();
    let res = UsbIpResponse::op_rep_devlist(std::slice::from_ref(&device));
    assert_eq!(
        res.to_bytes(),
        [
            vec![0x01, 0x11],             // version
            vec![0x00, 0x05],             // command
            vec![0x00, 0x00, 0x00, 0x00], // status
            vec![0x00, 0x00, 0x00, 0x01], // device_count
            device.to_bytes()
        ]
        .concat()
        .as_slice()
    );
}

#[test]
fn byte_serialize_op_rep_import() {
    let device = example_device();
    let res = UsbIpResponse::op_rep_import_success(&device);
    assert_eq!(
        res.to_bytes(),
        [
            vec![0x01, 0x11],             // version
            vec![0x00, 0x03],             // command
            vec![0x00, 0x00, 0x00, 0x00], // status
            device.to_bytes()
        ]
        .concat()
        .as_slice()
    );

    let res = UsbIpResponse::op_rep_import_fail();
    assert_eq!(
        res.to_bytes(),
        vec![
            0x01, 0x11, // version
            0x00, 0x03, // command
            0x00, 0x00, 0x00, 0x01, // status
        ]
    );
}

#[test]
fn byte_serialize_usbip_ret_submit() {
    let res = UsbIpResponse::UsbIpRetSubmit {
        header: UsbIpHeaderBasic {
            command: USBIP_RET_SUBMIT.into(),
            seqnum: 2,
            devid: 3,
            direction: DIRECTION_IN,
            ep: 4,
        },
        status: 5,
        actual_length: 4,
        start_frame: 7,
        number_of_packets: 8,
        error_count: 9,
        transfer_buffer: vec![0xFF; 4],
        iso_packet_descriptor: vec![],
    };

    assert_eq!(
        res.to_bytes(),
        vec![
            0x00, 0x00, 0x00, 0x03, // command
            0x00, 0x00, 0x00, 0x02, // seqnum
            0x00, 0x00, 0x00, 0x03, // devid
            0x00, 0x00, 0x00, 0x01, // direction
            0x00, 0x00, 0x00, 0x04, // ep
            0x00, 0x00, 0x00, 0x05, // status
            0x00, 0x00, 0x00, 0x04, // actual_length
            0x00, 0x00, 0x00, 0x07, // start_frame
            0x00, 0x00, 0x00, 0x08, // number_of_packets
            0x00, 0x00, 0x00, 0x09, // error_count
            0x00, 0x00, 0x00, 0x00, // padding
            0x00, 0x00, 0x00, 0x00, //
            0xFF, 0xFF, 0xFF,
            0xFF, // transfer_buffer
                  // iso_packet_descriptor
        ],
    );
}

#[test]
#[should_panic]
fn byte_serialize_invalid_usbip_ret_submit() {
    let res = UsbIpResponse::UsbIpRetSubmit {
        header: UsbIpHeaderBasic {
            command: USBIP_RET_SUBMIT.into(),
            seqnum: 2,
            devid: 3,
            direction: DIRECTION_OUT, // data section should be empty, but is not
            ep: 4,
        },
        status: 5,
        actual_length: 4,
        start_frame: 7,
        number_of_packets: 8,
        error_count: 9,
        transfer_buffer: vec![0xFF; 4],
        iso_packet_descriptor: vec![0xFF; 16],
    };

    assert!(res.is_serializable());
    res.to_bytes();
}

#[test]
fn byte_serialize_usbip_ret_submit_out() {
    // OUT transfer: actual_length can be non-zero while transfer_buffer is empty
    let res = UsbIpResponse::UsbIpRetSubmit {
        header: UsbIpHeaderBasic {
            command: USBIP_RET_SUBMIT.into(),
            seqnum: 2,
            devid: 3,
            direction: DIRECTION_OUT,
            ep: 4,
        },
        status: 0,
        actual_length: 384,
        start_frame: 0,
        number_of_packets: 0,
        error_count: 0,
        transfer_buffer: vec![],
        iso_packet_descriptor: vec![],
    };

    let bytes = res.to_bytes();
    // actual_length should be 384 (0x180) at offset 24
    assert_eq!(&bytes[24..28], &[0x00, 0x00, 0x01, 0x80]);
    // transfer_buffer should be empty (only header + fields, no payload)
    assert_eq!(bytes.len(), 48);
}

#[test]
fn byte_serialize_usbip_ret_unlink() {
    let res = UsbIpResponse::usbip_ret_unlink_success(&UsbIpHeaderBasic {
        command: USBIP_RET_UNLINK.into(),
        seqnum: 1,
        devid: 2,
        direction: 3,
        ep: 4,
    });

    let mut expected_result = vec![
        0x00, 0x00, 0x00, 0x04, // command
        0x00, 0x00, 0x00, 0x01, // seqnum
        0x00, 0x00, 0x00, 0x02, // devid
        0x00, 0x00, 0x00, 0x03, // direction
        0x00, 0x00, 0x00, 0x04, // ep
        0x00, 0x00, 0x00, 0x00, // status
        0x00, 0x00, 0x00, 0x00, // padding
        0x00, 0x00, 0x00, 0x00, //
        0x00, 0x00, 0x00, 0x00, //
        0x00, 0x00, 0x00, 0x00, //
        0x00, 0x00, 0x00, 0x00, //
        0x00, 0x00, 0x00, 0x00, //
    ];

    assert_eq!(res.to_bytes(), expected_result,);

    let res = UsbIpResponse::usbip_ret_unlink_fail(&UsbIpHeaderBasic {
        command: USBIP_RET_UNLINK.into(),
        seqnum: 1,
        devid: 2,
        direction: 3,
        ep: 4,
    });

    expected_result[5 * 4 + 3] = 1; // status

    assert_eq!(res.to_bytes(), expected_result,);
}


#[test]
fn clones_of_commands_are_equal() {
    let cmd = UsbIpCommand::UsbIpCmdSubmit {
        header: UsbIpHeaderBasic {
            command: 1,
            seqnum: 2,
            devid: 3,
            direction: DIRECTION_OUT,
            ep: 5,
        },
        transfer_flags: 6,
        transfer_buffer_length: 2,
        start_frame: 7,
        number_of_packets: 8,
        interval: 9,
        setup: [1; 8],
        data: vec![1, 2],
        iso_packet_descriptor: vec![3],
    };
    assert_eq!(cmd.clone(), cmd);
    let cmd = UsbIpCommand::OpReqImport {
        status: 4,
        busid: [7; 32],
    };
    assert_eq!(cmd.clone(), cmd);
}
