//! USB/IP protocol structs
//!
//! The commands that a client sends and the responses that the server gives,
//! and their encodings as bytes, after the
//! [Linux kernel documentation](https://docs.kernel.org/usb/usbip_protocol.html).

use vstd::prelude::*;

pub use crate::error::{MAX_NUMBER_OF_PACKETS, MAX_TRANSFER_BUFFER_LENGTH};

use crate::device::{clone_devices, device_views, law_device_wire_length, DeviceView, UsbDevice};
use crate::error::ProtocolError;
use crate::wire::{
    be16, be16_at, be32, be32_at, get_be32, lemma_be16_read_back, lemma_be32_read_back, len32,
    put_be16, put_be32, put_bytes, put_zeros, truncate_len, zeros,
};

verus! {

/// USB/IP protocol version
///
/// This is currently the only supported version of USB/IP
/// for this library.
pub const USBIP_VERSION: u16 = 0x0111;

/// Command code: Retrieve the list of exported USB devices
pub const OP_REQ_DEVLIST: u16 = 0x8005;

/// Command code: import a remote USB device
pub const OP_REQ_IMPORT: u16 = 0x8003;

/// Reply code: The list of exported USB devices
pub const OP_REP_DEVLIST: u16 = 0x0005;

/// Reply code: Reply to import
pub const OP_REP_IMPORT: u16 = 0x0003;

/// Command code: Submit an URB
pub const USBIP_CMD_SUBMIT: u16 = 0x0001;

/// Command code: Unlink an URB
pub const USBIP_CMD_UNLINK: u16 = 0x0002;

/// Reply code: Reply for submitting an URB
pub const USBIP_RET_SUBMIT: u16 = 0x0003;

/// Reply code: Reply for URB unlink
pub const USBIP_RET_UNLINK: u16 = 0x0004;

/// `direction` of an URB whose data flows to the device.
pub const DIRECTION_OUT: u32 = 0;

/// `direction` of an URB whose data flows to the client.
pub const DIRECTION_IN: u32 = 1;

/// `number_of_packets` that stands, like zero, for no isochronous packets.
pub const NO_PACKETS: u32 = 0xFFFF_FFFF;

/// Common header for all context sensitive packets
///
/// All commands/responses which rely on a device being attached
/// to a client use this header.
#[derive(Clone, Copy, Debug, PartialEq, Eq, Structural)]
pub struct UsbIpHeaderBasic {
    pub command: u32,
    pub seqnum: u32,
    pub devid: u32,
    pub direction: u32,
    pub ep: u32,
}

/// The header that twenty bytes hold.
pub open spec fn header_of(s: Seq<u8>) -> UsbIpHeaderBasic {
    UsbIpHeaderBasic {
        command: be32_at(s, 0),
        seqnum: be32_at(s, 4),
        devid: be32_at(s, 8),
        direction: be32_at(s, 12),
        ep: be32_at(s, 16),
    }
}

fn be32_array(v: u32) -> (r: [u8; 4])
    ensures
        r@ == be32(v),
{
    let r = [
        (v / 0x100_0000) as u8,
        (v / 0x1_0000 % 0x100) as u8,
        (v / 0x100 % 0x100) as u8,
        (v % 0x100) as u8,
    ];
    assert(r@ =~= be32(v));
    r
}

impl UsbIpHeaderBasic {
    /// The twenty bytes of this header.
    pub open spec fn wire(self) -> Seq<u8> {
        be32(self.command) + be32(self.seqnum) + be32(self.devid) + be32(self.direction) + be32(
            self.ep,
        )
    }

    /// Why a header off the network is refused, if it is.
    pub open spec fn violation(self) -> Option<ProtocolError> {
        if self.direction > 1 {
            Some(ProtocolError::InvalidDirection(self.direction))
        } else if self.ep > 15 {
            Some(ProtocolError::InvalidEndpoint(self.ep))
        } else {
            None
        }
    }

    /// Converts a byte array into a [UsbIpHeaderBasic].
    pub fn from_bytes(bytes: &[u8; 20]) -> (r: Self)
        requires
            be32_at(bytes@, 12) <= 1,
        ensures
            r == header_of(bytes@),
    {
        let s = bytes.as_slice();
        UsbIpHeaderBasic {
            command: get_be32(s, 0),
            seqnum: get_be32(s, 4),
            devid: get_be32(s, 8),
            direction: get_be32(s, 12),
            ep: get_be32(s, 16),
        }
    }

    /// Returns the validated direction flag (0=OUT, 1=IN) or an error.
    pub fn validated_direction(&self) -> (r: Result<u32, ProtocolError>)
        ensures
            r == (if self.direction <= 1 {
                Ok::<u32, ProtocolError>(self.direction)
            } else {
                Err(ProtocolError::InvalidDirection(self.direction))
            }),
    {
        if self.direction > 1 {
            return Err(ProtocolError::InvalidDirection(self.direction));
        }
        Ok(self.direction)
    }

    /// Validate protocol-invariant fields that come off the network.
    ///
    /// The endpoint number is a 4-bit field in USB; the network value is
    /// truncated further down the stack, so anything wider is rejected.
    pub fn validate(&self) -> (r: Result<(), ProtocolError>)
        ensures
            r == (match self.violation() {
                None => Ok::<(), ProtocolError>(()),
                Some(e) => Err(e),
            }),
    {
        if self.direction > 1 {
            return Err(ProtocolError::InvalidDirection(self.direction));
        }
        if self.ep > 15 {
            return Err(ProtocolError::InvalidEndpoint(self.ep));
        }
        Ok(())
    }

    /// Converts the [UsbIpHeaderBasic] into a byte array.
    pub fn to_bytes(&self) -> (r: [u8; 20])
        ensures
            r@ == self.wire(),
    {
        let a = be32_array(self.command);
        let b = be32_array(self.seqnum);
        let c = be32_array(self.devid);
        let d = be32_array(self.direction);
        let e = be32_array(self.ep);
        let r = [
            a[0], a[1], a[2], a[3],
            b[0], b[1], b[2], b[3],
            c[0], c[1], c[2], c[3],
            d[0], d[1], d[2], d[3],
            e[0], e[1], e[2], e[3],
        ];
        assert(r@ =~= self.wire());
        r
    }
}

/// Client side commands from the Virtual Host Controller
#[derive(Debug, PartialEq, Eq)]
pub enum UsbIpCommand {
    OpReqDevlist {
        status: u32,
    },
    OpReqImport {
        status: u32,
        busid: [u8; 32],
    },
    UsbIpCmdSubmit {
        header: UsbIpHeaderBasic,
        transfer_flags: u32,
        transfer_buffer_length: u32,
        start_frame: u32,
        number_of_packets: u32,
        interval: u32,
        setup: [u8; 8],
        data: Vec<u8>,
        iso_packet_descriptor: Vec<u8>,
    },
    UsbIpCmdUnlink {
        header: UsbIpHeaderBasic,
        unlink_seqnum: u32,
    },
}

/// What an USBIP_CMD_SUBMIT consists of.
#[verifier::ext_equal]
pub struct SubmitView {
    pub header: UsbIpHeaderBasic,
    pub transfer_flags: u32,
    pub transfer_buffer_length: u32,
    pub start_frame: u32,
    pub number_of_packets: u32,
    pub interval: u32,
    pub setup: Seq<u8>,
    pub data: Seq<u8>,
    pub iso_packet_descriptor: Seq<u8>,
}

/// What a command consists of.
#[verifier::ext_equal]
pub enum CommandView {
    Devlist { status: u32 },
    Import { status: u32, busid: Seq<u8> },
    Submit(SubmitView),
    Unlink { header: UsbIpHeaderBasic, unlink_seqnum: u32 },
}

impl View for UsbIpCommand {
    type V = CommandView;

    open spec fn view(&self) -> CommandView {
        match self {
            UsbIpCommand::OpReqDevlist { status } => CommandView::Devlist { status: *status },
            UsbIpCommand::OpReqImport { status, busid } => CommandView::Import {
                status: *status,
                busid: busid@,
            },
            UsbIpCommand::UsbIpCmdSubmit {
                header,
                transfer_flags,
                transfer_buffer_length,
                start_frame,
                number_of_packets,
                interval,
                setup,
                data,
                iso_packet_descriptor,
            } => CommandView::Submit(
                SubmitView {
                    header: *header,
                    transfer_flags: *transfer_flags,
                    transfer_buffer_length: *transfer_buffer_length,
                    start_frame: *start_frame,
                    number_of_packets: *number_of_packets,
                    interval: *interval,
                    setup: setup@,
                    data: data@,
                    iso_packet_descriptor: iso_packet_descriptor@,
                },
            ),
            UsbIpCommand::UsbIpCmdUnlink { header, unlink_seqnum } => CommandView::Unlink {
                header: *header,
                unlink_seqnum: *unlink_seqnum,
            },
        }
    }
}

impl SubmitView {
    /// The 48 bytes before the data.
    pub open spec fn fixed_wire(self) -> Seq<u8> {
        self.header.wire() + be32(self.transfer_flags) + be32(self.transfer_buffer_length) + be32(
            self.start_frame,
        ) + be32(self.number_of_packets) + be32(self.interval) + self.setup
    }
}

impl CommandView {
    /// The bytes of this command.
    pub open spec fn wire(self) -> Seq<u8> {
        match self {
            CommandView::Devlist { status } => be16(USBIP_VERSION) + be16(OP_REQ_DEVLIST) + be32(
                status,
            ),
            CommandView::Import { status, busid } => be16(USBIP_VERSION) + be16(OP_REQ_IMPORT)
                + be32(status) + busid,
            CommandView::Submit(submit) => submit.fixed_wire() + submit.data
                + submit.iso_packet_descriptor,
            CommandView::Unlink { header, unlink_seqnum } => header.wire() + be32(unlink_seqnum)
                + zeros(24),
        }
    }

    /// Whether the length that this command announces is the length of its
    /// data.
    pub open spec fn serializable(self) -> bool {
        match self {
            CommandView::Submit(submit) => submit.header.direction == DIRECTION_OUT
                ==> submit.transfer_buffer_length == len32(submit.data.len()),
            _ => true,
        }
    }
}

impl Clone for UsbIpCommand {
    fn clone(&self) -> (r: Self)
        ensures
            r@ == self@,
    {
        match self {
            UsbIpCommand::OpReqDevlist { status } => UsbIpCommand::OpReqDevlist {
                status: *status,
            },
            UsbIpCommand::OpReqImport { status, busid } => UsbIpCommand::OpReqImport {
                status: *status,
                busid: *busid,
            },
            UsbIpCommand::UsbIpCmdSubmit {
                header,
                transfer_flags,
                transfer_buffer_length,
                start_frame,
                number_of_packets,
                interval,
                setup,
                data,
                iso_packet_descriptor,
            } => {
                let new_data = data.clone();
                let new_iso = iso_packet_descriptor.clone();
                assert(new_data@ =~= data@);
                assert(new_iso@ =~= iso_packet_descriptor@);
                UsbIpCommand::UsbIpCmdSubmit {
                    header: *header,
                    transfer_flags: *transfer_flags,
                    transfer_buffer_length: *transfer_buffer_length,
                    start_frame: *start_frame,
                    number_of_packets: *number_of_packets,
                    interval: *interval,
                    setup: *setup,
                    data: new_data,
                    iso_packet_descriptor: new_iso,
                }
            },
            UsbIpCommand::UsbIpCmdUnlink { header, unlink_seqnum } => UsbIpCommand::UsbIpCmdUnlink {
                header: *header,
                unlink_seqnum: *unlink_seqnum,
            },
        }
    }
}

impl UsbIpCommand {
    /// Whether the length that this command announces is the length of its
    /// data, as [`Self::to_bytes`] needs it.
    pub fn is_serializable(&self) -> (r: bool)
        ensures
            r == self@.serializable(),
    {
        match self {
            UsbIpCommand::UsbIpCmdSubmit { header, transfer_buffer_length, data, .. } => {
                header.direction != DIRECTION_OUT || *transfer_buffer_length == truncate_len(
                    data.len(),
                )
            },
            _ => true,
        }
    }

    /// Converts the [UsbIpCommand] into a byte vector
    pub fn to_bytes(&self) -> (r: Vec<u8>)
        requires
            self@.serializable(),
        ensures
            r@ == self@.wire(),
    {
        let mut result: Vec<u8> = Vec::new();
        match self {
            UsbIpCommand::OpReqDevlist { status } => {
                put_be16(&mut result, USBIP_VERSION);
                put_be16(&mut result, OP_REQ_DEVLIST);
                put_be32(&mut result, *status);
            },
            UsbIpCommand::OpReqImport { status, busid } => {
                put_be16(&mut result, USBIP_VERSION);
                put_be16(&mut result, OP_REQ_IMPORT);
                put_be32(&mut result, *status);
                put_bytes(&mut result, busid.as_slice());
            },
            UsbIpCommand::UsbIpCmdSubmit {
                header,
                transfer_flags,
                transfer_buffer_length,
                start_frame,
                number_of_packets,
                interval,
                setup,
                data,
                iso_packet_descriptor,
            } => {
                put_bytes(&mut result, header.to_bytes().as_slice());
                put_be32(&mut result, *transfer_flags);
                put_be32(&mut result, *transfer_buffer_length);
                put_be32(&mut result, *start_frame);
                put_be32(&mut result, *number_of_packets);
                put_be32(&mut result, *interval);
                put_bytes(&mut result, setup.as_slice());
                put_bytes(&mut result, data.as_slice());
                put_bytes(&mut result, iso_packet_descriptor.as_slice());
            },
            UsbIpCommand::UsbIpCmdUnlink { header, unlink_seqnum } => {
                put_bytes(&mut result, header.to_bytes().as_slice());
                put_be32(&mut result, *unlink_seqnum);
                put_zeros(&mut result, 24);
            },
        }
        assert(result@ =~= self@.wire());
        result
    }
}

/// Server side responses from the USB Host
#[derive(Debug)]
pub enum UsbIpResponse {
    OpRepDevlist {
        status: u32,
        device_count: u32,
        devices: Vec<UsbDevice>,
    },
    OpRepImport {
        status: u32,
        device: Option<UsbDevice>,
    },
    UsbIpRetSubmit {
        header: UsbIpHeaderBasic,
        status: u32,
        actual_length: u32,
        start_frame: u32,
        number_of_packets: u32,
        error_count: u32,
        transfer_buffer: Vec<u8>,
        iso_packet_descriptor: Vec<u8>,
    },
    UsbIpRetUnlink {
        header: UsbIpHeaderBasic,
        status: u32,
    },
}

/// What an USBIP_RET_SUBMIT consists of.
#[verifier::ext_equal]
pub struct RetSubmitView {
    pub header: UsbIpHeaderBasic,
    pub status: u32,
    pub actual_length: u32,
    pub start_frame: u32,
    pub number_of_packets: u32,
    pub error_count: u32,
    pub transfer_buffer: Seq<u8>,
    pub iso_packet_descriptor: Seq<u8>,
}

/// What a response consists of.
#[verifier::ext_equal]
pub enum ResponseView {
    Devlist { status: u32, device_count: u32, devices: Seq<DeviceView> },
    Import { status: u32, device: Option<DeviceView> },
    Submit(RetSubmitView),
    Unlink { header: UsbIpHeaderBasic, status: u32 },
}

impl View for UsbIpResponse {
    type V = ResponseView;

    open spec fn view(&self) -> ResponseView {
        match self {
            UsbIpResponse::OpRepDevlist { status, device_count, devices } => ResponseView::Devlist {
                status: *status,
                device_count: *device_count,
                devices: device_views(devices@),
            },
            UsbIpResponse::OpRepImport { status, device } => ResponseView::Import {
                status: *status,
                device: match device {
                    Some(d) => Some(d@),
                    None => None,
                },
            },
            UsbIpResponse::UsbIpRetSubmit {
                header,
                status,
                actual_length,
                start_frame,
                number_of_packets,
                error_count,
                transfer_buffer,
                iso_packet_descriptor,
            } => ResponseView::Submit(
                RetSubmitView {
                    header: *header,
                    status: *status,
                    actual_length: *actual_length,
                    start_frame: *start_frame,
                    number_of_packets: *number_of_packets,
                    error_count: *error_count,
                    transfer_buffer: transfer_buffer@,
                    iso_packet_descriptor: iso_packet_descriptor@,
                },
            ),
            UsbIpResponse::UsbIpRetUnlink { header, status } => ResponseView::Unlink {
                header: *header,
                status: *status,
            },
        }
    }
}

/// [`DeviceView::wire_with_interfaces`] of each of `devices`, in order.
pub open spec fn devices_wire(devices: Seq<DeviceView>) -> Seq<u8>
    decreases devices.len(),
{
    if devices.len() == 0 {
        seq![]
    } else {
        devices_wire(devices.drop_last()) + devices.last().wire_with_interfaces()
    }
}

/// A Linux status as the protocol's unsigned fields hold it: modulo 2^32.
pub open spec fn status_code(status: i32) -> u32 {
    (if status < 0 {
        status + 0x1_0000_0000
    } else {
        status as int
    }) as u32
}

fn encode_status(status: i32) -> (r: u32)
    ensures
        r == status_code(status),
{
    if status < 0 {
        (status as i64 + 0x1_0000_0000i64) as u32
    } else {
        status as u32
    }
}

impl RetSubmitView {
    /// The 48 bytes before the data.
    pub open spec fn fixed_wire(self) -> Seq<u8> {
        self.header.wire() + be32(self.status) + be32(self.actual_length) + be32(self.start_frame)
            + be32(self.number_of_packets) + be32(self.error_count) + zeros(8)
    }

    /// Whether the reply carries the data that its header announces: as many
    /// bytes as `actual_length` says where data flows to the client, none
    /// otherwise.
    pub open spec fn serializable(self) -> bool {
        &&& self.header.command == USBIP_RET_SUBMIT
        &&& if self.header.direction == DIRECTION_IN {
            self.actual_length == len32(self.transfer_buffer.len())
        } else {
            self.transfer_buffer.len() == 0
        }
    }
}

impl ResponseView {
    /// The bytes of this response.
    pub open spec fn wire(self) -> Seq<u8> {
        match self {
            ResponseView::Devlist { status, device_count, devices } => be16(USBIP_VERSION) + be16(
                OP_REP_DEVLIST,
            ) + be32(status) + be32(device_count) + devices_wire(devices),
            ResponseView::Import { status, device } => be16(USBIP_VERSION) + be16(OP_REP_IMPORT)
                + be32(status) + (match device {
                Some(d) => d.wire(),
                None => seq![],
            }),
            ResponseView::Submit(ret) => ret.fixed_wire() + ret.transfer_buffer
                + ret.iso_packet_descriptor,
            ResponseView::Unlink { header, status } => header.wire() + be32(status) + zeros(24),
        }
    }

    /// Whether the header of this response is one of its kind, and its data
    /// are as the header announces.
    pub open spec fn serializable(self) -> bool {
        match self {
            ResponseView::Submit(ret) => ret.serializable(),
            ResponseView::Unlink { header, .. } => header.command == USBIP_RET_UNLINK,
            _ => true,
        }
    }
}

/// The reply to an URB that ended with `status`.
pub open spec fn ret_submit(
    header: UsbIpHeaderBasic,
    status: i32,
    actual_length: u32,
    data: Seq<u8>,
) -> ResponseView {
    ResponseView::Submit(
        RetSubmitView {
            header,
            status: status_code(status),
            actual_length,
            start_frame: 0,
            number_of_packets: 0,
            error_count: 0,
            transfer_buffer: data,
            iso_packet_descriptor: seq![],
        },
    )
}

/// The reply to an unlink.
pub open spec fn ret_unlink(header: UsbIpHeaderBasic, status: i32) -> ResponseView {
    ResponseView::Unlink { header, status: status_code(status) }
}

impl Clone for UsbIpResponse {
    fn clone(&self) -> (r: Self)
        ensures
            r@ == self@,
    {
        match self {
            UsbIpResponse::OpRepDevlist { status, device_count, devices } => {
                UsbIpResponse::OpRepDevlist {
                    status: *status,
                    device_count: *device_count,
                    devices: clone_devices(devices.as_slice()),
                }
            },
            UsbIpResponse::OpRepImport { status, device } => {
                let new_device = match device {
                    Some(d) => Some(d.clone()),
                    None => None,
                };
                UsbIpResponse::OpRepImport { status: *status, device: new_device }
            },
            UsbIpResponse::UsbIpRetSubmit {
                header,
                status,
                actual_length,
                start_frame,
                number_of_packets,
                error_count,
                transfer_buffer,
                iso_packet_descriptor,
            } => {
                let new_buffer = transfer_buffer.clone();
                let new_iso = iso_packet_descriptor.clone();
                assert(new_buffer@ =~= transfer_buffer@);
                assert(new_iso@ =~= iso_packet_descriptor@);
                UsbIpResponse::UsbIpRetSubmit {
                    header: *header,
                    status: *status,
                    actual_length: *actual_length,
                    start_frame: *start_frame,
                    number_of_packets: *number_of_packets,
                    error_count: *error_count,
                    transfer_buffer: new_buffer,
                    iso_packet_descriptor: new_iso,
                }
            },
            UsbIpResponse::UsbIpRetUnlink { header, status } => UsbIpResponse::UsbIpRetUnlink {
                header: *header,
                status: *status,
            },
        }
    }
}

impl UsbIpResponse {
    /// Whether the header of this response is one of its kind, and its data
    /// are as the header announces, as [`Self::to_bytes`] needs it.
    pub fn is_serializable(&self) -> (r: bool)
        ensures
            r == self@.serializable(),
    {
        match self {
            UsbIpResponse::UsbIpRetSubmit { header, actual_length, transfer_buffer, .. } => {
                header.command == USBIP_RET_SUBMIT as u32 && if header.direction == DIRECTION_IN {
                    *actual_length == truncate_len(transfer_buffer.len())
                } else {
                    transfer_buffer.len() == 0
                }
            },
            UsbIpResponse::UsbIpRetUnlink { header, .. } => {
                header.command == USBIP_RET_UNLINK as u32
            },
            _ => true,
        }
    }

    /// Converts the [UsbIpResponse] into a byte vector
    pub fn to_bytes(&self) -> (r: Vec<u8>)
        requires
            self@.serializable(),
        ensures
            r@ == self@.wire(),
    {
        let mut result: Vec<u8> = Vec::new();
        match self {
            UsbIpResponse::OpRepDevlist { status, device_count, devices } => {
                put_be16(&mut result, USBIP_VERSION);
                put_be16(&mut result, OP_REP_DEVLIST);
                put_be32(&mut result, *status);
                put_be32(&mut result, *device_count);
                let ghost head = result@;
                let ghost views = device_views(devices@);
                assert(result@ =~= head + devices_wire(views.take(0)));
                let mut i: usize = 0;
                while i < devices.len()
                    invariant
                        i <= devices@.len(),
                        views == device_views(devices@),
                        result@ == head + devices_wire(views.take(i as int)),
                    decreases devices@.len() - i,
                {
                    put_bytes(&mut result, devices[i].to_bytes_with_interfaces().as_slice());
                    proof {
                        let t = views.take(i + 1);
                        assert(t.drop_last() =~= views.take(i as int));
                        assert(result@ =~= head + devices_wire(t));
                    }
                    i += 1;
                }
                assert(views.take(views.len() as int) =~= views);
            },
            UsbIpResponse::OpRepImport { status, device } => {
                put_be16(&mut result, USBIP_VERSION);
                put_be16(&mut result, OP_REP_IMPORT);
                put_be32(&mut result, *status);
                match device {
                    Some(device) => put_bytes(&mut result, device.to_bytes().as_slice()),
                    None => {},
                }
            },
            UsbIpResponse::UsbIpRetSubmit {
                header,
                status,
                actual_length,
                start_frame,
                number_of_packets,
                error_count,
                transfer_buffer,
                iso_packet_descriptor,
            } => {
                put_bytes(&mut result, header.to_bytes().as_slice());
                put_be32(&mut result, *status);
                put_be32(&mut result, *actual_length);
                put_be32(&mut result, *start_frame);
                put_be32(&mut result, *number_of_packets);
                put_be32(&mut result, *error_count);
                put_zeros(&mut result, 8);
                put_bytes(&mut result, transfer_buffer.as_slice());
                put_bytes(&mut result, iso_packet_descriptor.as_slice());
            },
            UsbIpResponse::UsbIpRetUnlink { header, status } => {
                put_bytes(&mut result, header.to_bytes().as_slice());
                put_be32(&mut result, *status);
                put_zeros(&mut result, 24);
            },
        }
        assert(result@ =~= self@.wire());
        result
    }

    /// Constructs a OP_REP_DEVLIST response
    pub fn op_rep_devlist(devices: &[UsbDevice]) -> (r: Self)
        ensures
            r@ == (ResponseView::Devlist {
                status: 0,
                device_count: len32(devices@.len()),
                devices: device_views(devices@),
            }),
    {
        UsbIpResponse::OpRepDevlist {
            status: 0,
            device_count: truncate_len(devices.len()),
            devices: clone_devices(devices),
        }
    }

    /// Constructs a successful OP_REP_IMPORT response
    pub fn op_rep_import_success(device: &UsbDevice) -> (r: Self)
        ensures
            r@ == (ResponseView::Import { status: 0, device: Some(device@) }),
    {
        UsbIpResponse::OpRepImport { status: 0, device: Some(device.clone()) }
    }

    /// Constructs a failed OP_REP_IMPORT response
    pub fn op_rep_import_fail() -> (r: Self)
        ensures
            r@ == (ResponseView::Import { status: 1, device: None }),
    {
        UsbIpResponse::OpRepImport { status: 1, device: None }
    }

    /// Constructs a successful USBIP_RET_SUBMIT response
    pub fn usbip_ret_submit_success(
        header: &UsbIpHeaderBasic,
        start_frame: u32,
        number_of_packets: u32,
        actual_length: u32,
        transfer_buffer: Vec<u8>,
        iso_packet_descriptor: Vec<u8>,
    ) -> (r: Self)
        ensures
            r@ == ResponseView::Submit(
                RetSubmitView {
                    header: *header,
                    status: 0,
                    actual_length,
                    start_frame,
                    number_of_packets,
                    error_count: 0,
                    transfer_buffer: transfer_buffer@,
                    iso_packet_descriptor: iso_packet_descriptor@,
                },
            ),
    {
        Self::usbip_ret_submit_result(
            header,
            0,
            start_frame,
            number_of_packets,
            actual_length,
            transfer_buffer,
            iso_packet_descriptor,
        )
    }

    /// Constructs USBIP_RET_SUBMIT with a Linux URB status value.
    pub fn usbip_ret_submit_result(
        header: &UsbIpHeaderBasic,
        status: i32,
        start_frame: u32,
        number_of_packets: u32,
        actual_length: u32,
        transfer_buffer: Vec<u8>,
        iso_packet_descriptor: Vec<u8>,
    ) -> (r: Self)
        ensures
            r@ == ResponseView::Submit(
                RetSubmitView {
                    header: *header,
                    status: status_code(status),
                    actual_length,
                    start_frame,
                    number_of_packets,
                    error_count: 0,
                    transfer_buffer: transfer_buffer@,
                    iso_packet_descriptor: iso_packet_descriptor@,
                },
            ),
    {
        UsbIpResponse::UsbIpRetSubmit {
            header: *header,
            status: encode_status(status),
            actual_length,
            start_frame,
            number_of_packets,
            error_count: 0,
            transfer_buffer,
            iso_packet_descriptor,
        }
    }

    /// Constructs a failed USBIP_RET_SUBMIT response
    pub fn usbip_ret_submit_fail(header: &UsbIpHeaderBasic) -> (r: Self)
        ensures
            r@ == ret_submit(*header, 1, 0, seq![]),
    {
        let r = UsbIpResponse::UsbIpRetSubmit {
            header: *header,
            status: 1,
            actual_length: 0,
            start_frame: 0,
            number_of_packets: 0,
            error_count: 0,
            transfer_buffer: Vec::new(),
            iso_packet_descriptor: Vec::new(),
        };
        assert(r@ =~= ret_submit(*header, 1, 0, seq![]));
        r
    }

    /// Constructs a successful USBIP_RET_UNLINK response
    pub fn usbip_ret_unlink_success(header: &UsbIpHeaderBasic) -> (r: Self)
        ensures
            r@ == ret_unlink(*header, 0),
    {
        Self::usbip_ret_unlink_result(header, 0)
    }

    /// Constructs USBIP_RET_UNLINK with a Linux URB status value.
    pub fn usbip_ret_unlink_result(header: &UsbIpHeaderBasic, status: i32) -> (r: Self)
        ensures
            r@ == ret_unlink(*header, status),
    {
        UsbIpResponse::UsbIpRetUnlink { header: *header, status: encode_status(status) }
    }

    /// Constructs a failed USBIP_RET_UNLINK response
    pub fn usbip_ret_unlink_fail(header: &UsbIpHeaderBasic) -> (r: Self)
        ensures
            r@ == ret_unlink(*header, 1),
    {
        UsbIpResponse::UsbIpRetUnlink { header: *header, status: 1 }
    }
}

/// A header survives being written and read.
pub proof fn law_header_round_trip(header: UsbIpHeaderBasic)
    ensures
        header.wire().len() == 20,
        header_of(header.wire()) == header,
{
    let s = header.wire();
    assert(s.subrange(0, 4) =~= be32(header.command));
    assert(s.subrange(4, 8) =~= be32(header.seqnum));
    assert(s.subrange(8, 12) =~= be32(header.devid));
    assert(s.subrange(12, 16) =~= be32(header.direction));
    assert(s.subrange(16, 20) =~= be32(header.ep));
    lemma_be32_read_back(s, 0, header.command);
    lemma_be32_read_back(s, 4, header.seqnum);
    lemma_be32_read_back(s, 8, header.devid);
    lemma_be32_read_back(s, 12, header.direction);
    lemma_be32_read_back(s, 16, header.ep);
}

/// How long each response is: a device list takes 12 bytes, 312 for each
/// device and 4 for each interface; a successful import 0x140 bytes and a
/// failed one 8; the reply to an URB 48 bytes and its data; the reply to an
/// unlink 48 bytes.
pub proof fn law_response_length(r: ResponseView)
    ensures
        match r {
            ResponseView::Devlist { devices, .. } => r.wire().len() == 12 + 312 * devices.len() + 4
                * interface_count(devices),
            ResponseView::Import { device, .. } => r.wire().len() == (if device is Some {
                0x140nat
            } else {
                8
            }),
            ResponseView::Submit(ret) => r.wire().len() == 48 + ret.transfer_buffer.len()
                + ret.iso_packet_descriptor.len(),
            ResponseView::Unlink { .. } => r.wire().len() == 48,
        },
{
    match r {
        ResponseView::Devlist { devices, .. } => {
            lemma_devices_wire_length(devices);
        },
        ResponseView::Import { device, .. } => {
            if let Some(d) = device {
                law_device_wire_length(d);
            }
        },
        _ => {},
    }
}

/// The number of interfaces of `devices` taken together.
pub open spec fn interface_count(devices: Seq<DeviceView>) -> nat
    decreases devices.len(),
{
    if devices.len() == 0 {
        0
    } else {
        interface_count(devices.drop_last()) + devices.last().interfaces.len()
    }
}

proof fn lemma_devices_wire_length(devices: Seq<DeviceView>)
    ensures
        devices_wire(devices).len() == 312 * devices.len() + 4 * interface_count(devices),
    decreases devices.len(),
{
    if devices.len() > 0 {
        lemma_devices_wire_length(devices.drop_last());
        law_device_wire_length(devices.last());
    }
}

/// A status that was put into a reply can be read from it.
pub proof fn law_status_is_kept(status: i32)
    ensures
        status == (if status_code(status) < 0x8000_0000 {
            status_code(status) as int
        } else {
            status_code(status) - 0x1_0000_0000
        }),
{
}

/// A header is five numbers in network order: the command, the sequence number,
/// the device, the direction and the endpoint, read as they are written.
pub proof fn law_header_fields(header: UsbIpHeaderBasic, s: Seq<u8>)
    ensures
        header.wire().len() == 20,
        be32_at(header.wire(), 0) == header.command,
        be32_at(header.wire(), 4) == header.seqnum,
        be32_at(header.wire(), 8) == header.devid,
        be32_at(header.wire(), 12) == header.direction,
        be32_at(header.wire(), 16) == header.ep,
        header_of(s).command == be32_at(s, 0),
        header_of(s).seqnum == be32_at(s, 4),
        header_of(s).devid == be32_at(s, 8),
        header_of(s).direction == be32_at(s, 12),
        header_of(s).ep == be32_at(s, 16),
{
    law_header_round_trip(header);
}

/// A header is refused for its direction unless that is 0 or 1, and then for its
/// endpoint unless that fits in four bits.
pub proof fn law_header_is_refused(header: UsbIpHeaderBasic)
    ensures
        header.violation() is None <==> (header.direction == 0 || header.direction == 1)
            && header.ep < 16,
        header.direction >= 2 ==> header.violation() == Some(
            ProtocolError::InvalidDirection(header.direction),
        ),
        header.direction < 2 && header.ep >= 16 ==> header.violation() == Some(
            ProtocolError::InvalidEndpoint(header.ep),
        ),
{
}

proof fn lemma_urb_words(
    s: Seq<u8>,
    header: UsbIpHeaderBasic,
    a: u32,
    b: u32,
    c: u32,
    d: u32,
    e: u32,
    tail: Seq<u8>,
)
    requires
        s.len() >= 48,
        tail.len() == 8,
        s.subrange(0, 48) == header.wire() + be32(a) + be32(b) + be32(c) + be32(d) + be32(e) + tail,
    ensures
        s.take(20) == header.wire(),
        be32_at(s, 20) == a,
        be32_at(s, 24) == b,
        be32_at(s, 28) == c,
        be32_at(s, 32) == d,
        be32_at(s, 36) == e,
        s.subrange(40, 48) == tail,
{
    let w = s.subrange(0, 48);
    let h = header.wire();
    assert(h.len() == 20);
    assert(s.take(20) =~= w.subrange(0, 20));
    assert(s.subrange(20, 24) =~= w.subrange(20, 24));
    assert(s.subrange(24, 28) =~= w.subrange(24, 28));
    assert(s.subrange(28, 32) =~= w.subrange(28, 32));
    assert(s.subrange(32, 36) =~= w.subrange(32, 36));
    assert(s.subrange(36, 40) =~= w.subrange(36, 40));
    assert(s.subrange(40, 48) =~= w.subrange(40, 48));
    assert(w.subrange(0, 20) =~= h);
    assert(w.subrange(20, 24) =~= be32(a));
    assert(w.subrange(24, 28) =~= be32(b));
    assert(w.subrange(28, 32) =~= be32(c));
    assert(w.subrange(32, 36) =~= be32(d));
    assert(w.subrange(36, 40) =~= be32(e));
    assert(w.subrange(40, 48) =~= tail);
    lemma_be32_read_back(s, 20, a);
    lemma_be32_read_back(s, 24, b);
    lemma_be32_read_back(s, 28, c);
    lemma_be32_read_back(s, 32, d);
    lemma_be32_read_back(s, 36, e);
}

proof fn lemma_three_parts(f: Seq<u8>, data: Seq<u8>, iso: Seq<u8>)
    ensures
        (f + data + iso).len() == f.len() + data.len() + iso.len(),
        (f + data + iso).take(f.len() as int) == f,
        (f + data + iso).subrange(0, f.len() as int) == f,
        (f + data + iso).skip(f.len() as int) == data + iso,
{
    assert((f + data + iso).take(f.len() as int) =~= f);
    assert((f + data + iso).subrange(0, f.len() as int) =~= f);
    assert((f + data + iso).skip(f.len() as int) =~= data + iso);
}

/// The fields of an USBIP_CMD_SUBMIT stand at their places, its data at 48, and
/// the packet descriptors after them.
pub proof fn law_submit_fields(c: SubmitView)
    requires
        c.setup.len() == 8,
    ensures
        ({
            let w = CommandView::Submit(c).wire();
            &&& w.take(20) == c.header.wire()
            &&& be32_at(w, 20) == c.transfer_flags
            &&& be32_at(w, 24) == c.transfer_buffer_length
            &&& be32_at(w, 28) == c.start_frame
            &&& be32_at(w, 32) == c.number_of_packets
            &&& be32_at(w, 36) == c.interval
            &&& w.subrange(40, 48) == c.setup
            &&& w.skip(48) == c.data + c.iso_packet_descriptor
        }),
{
    let f = c.fixed_wire();
    assert(f.len() == 48);
    lemma_three_parts(f, c.data, c.iso_packet_descriptor);
    lemma_urb_words(
        CommandView::Submit(c).wire(),
        c.header,
        c.transfer_flags,
        c.transfer_buffer_length,
        c.start_frame,
        c.number_of_packets,
        c.interval,
        c.setup,
    );
}

/// The fields of an USBIP_RET_SUBMIT stand at their places, eight zeros at 40,
/// its data at 48, and the packet descriptors after them.
pub proof fn law_ret_submit_fields(r: RetSubmitView)
    ensures
        ({
            let w = ResponseView::Submit(r).wire();
            &&& w.take(20) == r.header.wire()
            &&& be32_at(w, 20) == r.status
            &&& be32_at(w, 24) == r.actual_length
            &&& be32_at(w, 28) == r.start_frame
            &&& be32_at(w, 32) == r.number_of_packets
            &&& be32_at(w, 36) == r.error_count
            &&& w.subrange(40, 48) == seq![0u8, 0u8, 0u8, 0u8, 0u8, 0u8, 0u8, 0u8]
            &&& w.skip(48) == r.transfer_buffer + r.iso_packet_descriptor
        }),
{
    let f = r.fixed_wire();
    assert(f.len() == 48);
    lemma_three_parts(f, r.transfer_buffer, r.iso_packet_descriptor);
    lemma_urb_words(
        ResponseView::Submit(r).wire(),
        r.header,
        r.status,
        r.actual_length,
        r.start_frame,
        r.number_of_packets,
        r.error_count,
        zeros(8),
    );
    assert(zeros(8) =~= seq![0u8, 0u8, 0u8, 0u8, 0u8, 0u8, 0u8, 0u8]);
}

proof fn lemma_header_word_padding(header: UsbIpHeaderBasic, v: u32)
    ensures
        ({
            let w = header.wire() + be32(v) + zeros(24);
            &&& w.len() == 48
            &&& w.take(20) == header.wire()
            &&& be32_at(w, 20) == v
            &&& forall|i: int| 24 <= i < 48 ==> #[trigger] w[i] == 0
        }),
{
    let h = header.wire();
    let w = h + be32(v) + zeros(24);
    assert(h.len() == 20);
    assert(w.take(20) =~= h);
    assert(w.subrange(20, 24) =~= be32(v));
    lemma_be32_read_back(w, 20, v);
}

proof fn lemma_op_words(code: u16, status: u32, rest: Seq<u8>)
    ensures
        ({
            let w = be16(USBIP_VERSION) + be16(code) + be32(status) + rest;
            &&& w.len() == 8 + rest.len()
            &&& be16_at(w, 0) == 0x0111
            &&& be16_at(w, 2) == code
            &&& be32_at(w, 4) == status
            &&& w.skip(8) == rest
        }),
{
    let w = be16(USBIP_VERSION) + be16(code) + be32(status) + rest;
    assert(w.subrange(0, 2) =~= be16(USBIP_VERSION));
    assert(w.subrange(2, 4) =~= be16(code));
    assert(w.subrange(4, 8) =~= be32(status));
    lemma_be16_read_back(w, 0, USBIP_VERSION);
    lemma_be16_read_back(w, 2, code);
    lemma_be32_read_back(w, 4, status);
    assert(w.skip(8) =~= rest);
}

/// The commands other than USBIP_CMD_SUBMIT: requests start with the version,
/// their code and their status, an import goes on with the bus id, and an
/// unlink is a header, the sequence number of the URB and zeros.
pub proof fn law_command_fields(c: CommandView)
    requires
        c matches CommandView::Import { busid, .. } ==> busid.len() == 32,
    ensures
        ({
            let w = c.wire();
            match c {
                CommandView::Devlist { status } => {
                    &&& w.len() == 8
                    &&& be16_at(w, 0) == 0x0111
                    &&& be16_at(w, 2) == 0x8005
                    &&& be32_at(w, 4) == status
                },
                CommandView::Import { status, busid } => {
                    &&& w.len() == 40
                    &&& be16_at(w, 0) == 0x0111
                    &&& be16_at(w, 2) == 0x8003
                    &&& be32_at(w, 4) == status
                    &&& w.skip(8) == busid
                },
                CommandView::Submit(_) => true,
                CommandView::Unlink { header, unlink_seqnum } => {
                    &&& w.len() == 48
                    &&& w.take(20) == header.wire()
                    &&& be32_at(w, 20) == unlink_seqnum
                    &&& forall|i: int| 24 <= i < 48 ==> #[trigger] w[i] == 0
                },
            }
        }),
{
    match c {
        CommandView::Devlist { status } => {
            lemma_op_words(OP_REQ_DEVLIST, status, seq![]);
            assert(c.wire() + Seq::<u8>::empty() =~= c.wire());
        },
        CommandView::Import { status, busid } => {
            lemma_op_words(OP_REQ_IMPORT, status, busid);
        },
        CommandView::Submit(_) => {},
        CommandView::Unlink { header, unlink_seqnum } => {
            lemma_header_word_padding(header, unlink_seqnum);
        },
    }
}

/// The responses other than USBIP_RET_SUBMIT: replies start with the version,
/// their code and their status; that to an import goes on with the device, if
/// there is one; that to an unlink is a header, the status and zeros.
pub proof fn law_response_fields(r: ResponseView)
    ensures
        ({
            let w = r.wire();
            match r {
                ResponseView::Devlist { status, device_count, .. } => {
                    &&& be16_at(w, 0) == 0x0111
                    &&& be16_at(w, 2) == 0x0005
                    &&& be32_at(w, 4) == status
                    &&& be32_at(w, 8) == device_count
                },
                ResponseView::Import { status, device } => {
                    &&& be16_at(w, 0) == 0x0111
                    &&& be16_at(w, 2) == 0x0003
                    &&& be32_at(w, 4) == status
                    &&& device matches Some(d) ==> w.skip(8) == d.wire()
                    &&& device is None ==> w.len() == 8
                },
                ResponseView::Submit(_) => true,
                ResponseView::Unlink { header, status } => {
                    &&& w.len() == 48
                    &&& w.take(20) == header.wire()
                    &&& be32_at(w, 20) == status
                    &&& forall|i: int| 24 <= i < 48 ==> #[trigger] w[i] == 0
                },
            }
        }),
{
    match r {
        ResponseView::Devlist { status, device_count, devices } => {
            let list = devices_wire(devices);
            let rest = be32(device_count) + list;
            lemma_op_words(OP_REP_DEVLIST, status, rest);
            assert(r.wire() =~= be16(USBIP_VERSION) + be16(OP_REP_DEVLIST) + be32(status) + rest);
            assert(r.wire().subrange(8, 12) =~= be32(device_count));
            lemma_be32_read_back(r.wire(), 8, device_count);
        },
        ResponseView::Import { status, device } => {
            let rest = match device {
                Some(d) => d.wire(),
                None => seq![],
            };
            lemma_op_words(OP_REP_IMPORT, status, rest);
        },
        ResponseView::Submit(_) => {},
        ResponseView::Unlink { header, status } => {
            lemma_header_word_padding(header, status);
        },
    }
}

/// A device list of nothing takes 12 bytes, and each further device adds its
/// own bytes and those of its interfaces at the end.
pub proof fn law_devices_are_listed_in_order(
    status: u32,
    device_count: u32,
    devices: Seq<DeviceView>,
    device: DeviceView,
)
    ensures
        ({
            let nothing = ResponseView::Devlist { status, device_count, devices: seq![] };
            let list = ResponseView::Devlist { status, device_count, devices };
            let longer = ResponseView::Devlist {
                status,
                device_count,
                devices: devices.push(device),
            };
            &&& nothing.wire().len() == 12
            &&& longer.wire() == list.wire() + device.wire_with_interfaces()
        }),
{
    let list = ResponseView::Devlist { status, device_count, devices };
    let longer = ResponseView::Devlist { status, device_count, devices: devices.push(device) };
    assert(devices.push(device).drop_last() =~= devices);
    assert(longer.wire() =~= list.wire() + device.wire_with_interfaces());
}

/// The reply to an URB carries the header, the status, the length and the data
/// that it was made of, and nothing else; that to an unlink the header and the
/// status.
pub proof fn law_replies_carry_what_they_are_made_of(
    header: UsbIpHeaderBasic,
    status: i32,
    actual_length: u32,
    data: Seq<u8>,
)
    ensures
        ret_submit(header, status, actual_length, data) matches ResponseView::Submit(r) && {
            &&& r.header == header
            &&& r.status == (status as int) % 0x1_0000_0000
            &&& r.actual_length == actual_length
            &&& r.start_frame == 0
            &&& r.number_of_packets == 0
            &&& r.error_count == 0
            &&& r.transfer_buffer == data
            &&& r.iso_packet_descriptor.len() == 0
        },
        ret_unlink(header, status) matches ResponseView::Unlink { header: h, status: s } && {
            &&& h == header
            &&& s == (status as int) % 0x1_0000_0000
        },
{
}

/// A command can be written if it announces the length of what it sends.
pub proof fn law_which_commands_can_be_written(c: CommandView)
    ensures
        match c {
            CommandView::Submit(submit) => submit.data.len() <= u32::MAX ==> c.serializable() == (
            submit.header.direction != 0 || submit.transfer_buffer_length == submit.data.len()),
            _ => c.serializable(),
        },
{
}

/// A reply to an URB can be written if it announces the length of what it sends
/// back and sends nothing back on a write, and a reply to an URB or an unlink
/// only as such.
pub proof fn law_which_responses_can_be_written(r: ResponseView)
    ensures
        match r {
            ResponseView::Submit(ret) => ret.transfer_buffer.len() <= u32::MAX
                ==> r.serializable() == (ret.header.command == 3 && (if ret.header.direction == 1 {
                ret.actual_length == ret.transfer_buffer.len()
            } else {
                ret.transfer_buffer.len() == 0
            })),
            ResponseView::Unlink { header, .. } => r.serializable() == (header.command == 4),
            _ => r.serializable(),
        },
{
}

/// The model of a command has what the command has, field by field.
pub proof fn law_command_models(c: UsbIpCommand)
    ensures
        match c {
            UsbIpCommand::OpReqDevlist { status } => c@ is Devlist && c@->Devlist_status == status,
            UsbIpCommand::OpReqImport { status, busid } => {
                &&& c@ is Import
                &&& c@->Import_status == status
                &&& c@->busid == busid@
            },
            UsbIpCommand::UsbIpCmdSubmit {
                header,
                transfer_flags,
                transfer_buffer_length,
                start_frame,
                number_of_packets,
                interval,
                setup,
                data,
                iso_packet_descriptor,
            } => {
                &&& c@ is Submit
                &&& c@->Submit_0.header == header
                &&& c@->Submit_0.transfer_flags == transfer_flags
                &&& c@->Submit_0.transfer_buffer_length == transfer_buffer_length
                &&& c@->Submit_0.start_frame == start_frame
                &&& c@->Submit_0.number_of_packets == number_of_packets
                &&& c@->Submit_0.interval == interval
                &&& c@->Submit_0.setup == setup@
                &&& c@->Submit_0.data == data@
                &&& c@->Submit_0.iso_packet_descriptor == iso_packet_descriptor@
            },
            UsbIpCommand::UsbIpCmdUnlink { header, unlink_seqnum } => {
                &&& c@ is Unlink
                &&& c@->Unlink_header == header
                &&& c@->unlink_seqnum == unlink_seqnum
            },
        },
{
}

/// The model of a response has what the response has, field by field.
pub proof fn law_response_models(r: UsbIpResponse)
    ensures
        match r {
            UsbIpResponse::OpRepDevlist { status, device_count, devices } => {
                &&& r@ is Devlist
                &&& r@->Devlist_status == status
                &&& r@->device_count == device_count
                &&& r@->devices == device_views(devices@)
            },
            UsbIpResponse::OpRepImport { status, device } => {
                &&& r@ is Import
                &&& r@->Import_status == status
                &&& r@->device is Some <==> device is Some
                &&& device is Some ==> r@->device->0 == device->0@
            },
            UsbIpResponse::UsbIpRetSubmit {
                header,
                status,
                actual_length,
                start_frame,
                number_of_packets,
                error_count,
                transfer_buffer,
                iso_packet_descriptor,
            } => {
                &&& r@ is Submit
                &&& r@->Submit_0.header == header
                &&& r@->Submit_0.status == status
                &&& r@->Submit_0.actual_length == actual_length
                &&& r@->Submit_0.start_frame == start_frame
                &&& r@->Submit_0.number_of_packets == number_of_packets
                &&& r@->Submit_0.error_count == error_count
                &&& r@->Submit_0.transfer_buffer == transfer_buffer@
                &&& r@->Submit_0.iso_packet_descriptor == iso_packet_descriptor@
            },
            UsbIpResponse::UsbIpRetUnlink { header, status } => {
                &&& r@ is Unlink
                &&& r@->Unlink_header == header
                &&& r@->Unlink_status == status
            },
        },
{
}

} // verus!
