//! What can go wrong on a connection, and the Linux error numbers for it.

use vstd::prelude::*;
use vstd::string::StringExecFns;

use crate::text::{
    decimal, hex, lower_digits, put_decimal, put_lower_hex, put_upper_hex, upper_digits,
};

verus! {

/// Maximum accepted `transfer_buffer_length` for a single URB.
///
/// The value comes straight off the network, so it is bounded before any
/// allocation: a client cannot ask for multi-gigabyte buffers.
pub const MAX_TRANSFER_BUFFER_LENGTH: u32 = 0x100_0000;

/// Maximum accepted `number_of_packets` for isochronous transfers.
pub const MAX_NUMBER_OF_PACKETS: u32 = 4096;

/// Maximum URBs in flight for a single connection.
pub const MAX_PENDING_URBS: usize = 256;

/// The kinds of I/O errors that the server tells apart.
#[derive(Clone, Copy, Debug, PartialEq, Eq, Structural)]
pub enum ErrorKind {
    NotFound,
    PermissionDenied,
    ConnectionRefused,
    ConnectionReset,
    ConnectionAborted,
    NotConnected,
    InvalidInput,
    InvalidData,
    TimedOut,
    Interrupted,
    Unsupported,
    OutOfMemory,
    BrokenPipe,
    UnexpectedEof,
    Other,
}

/// The negated Linux error number that answers an I/O error of kind `kind`.
pub open spec fn errno_of(kind: ErrorKind) -> int {
    match kind {
        ErrorKind::NotFound => -2,
        ErrorKind::PermissionDenied => -13,
        ErrorKind::ConnectionRefused => -111,
        ErrorKind::ConnectionReset => -104,
        ErrorKind::ConnectionAborted => -103,
        ErrorKind::NotConnected => -107,
        ErrorKind::InvalidInput => -22,
        ErrorKind::InvalidData => -22,
        ErrorKind::TimedOut => -110,
        ErrorKind::Interrupted => -4,
        ErrorKind::Unsupported => -95,
        ErrorKind::OutOfMemory => -12,
        ErrorKind::BrokenPipe => -5,
        ErrorKind::UnexpectedEof => -5,
        ErrorKind::Other => -5,
    }
}

/// The negated Linux error number that answers an I/O error of kind `kind`.
pub fn io_error_to_errno(kind: ErrorKind) -> (errno: i32)
    ensures
        errno == errno_of(kind),
{
    match kind {
        ErrorKind::NotFound => -2,
        ErrorKind::PermissionDenied => -13,
        ErrorKind::ConnectionRefused => -111,
        ErrorKind::ConnectionReset => -104,
        ErrorKind::ConnectionAborted => -103,
        ErrorKind::NotConnected => -107,
        ErrorKind::InvalidInput | ErrorKind::InvalidData => -22,
        ErrorKind::TimedOut => -110,
        ErrorKind::Interrupted => -4,
        ErrorKind::Unsupported => -95,
        ErrorKind::OutOfMemory => -12,
        ErrorKind::BrokenPipe | ErrorKind::UnexpectedEof | ErrorKind::Other => -5,
    }
}

/// A violation of the USB/IP protocol, or of a limit of the server.
#[derive(Clone, Copy, Debug, PartialEq, Eq, Structural)]
pub enum ProtocolError {
    /// The first two bytes of a command are neither zero nor the version.
    UnknownVersion(u16),
    /// The command code is none that a client may send.
    UnknownCommand(u16),
    /// An OP_REQ_DEVLIST with a status other than zero.
    DevlistStatus(u32),
    /// An OP_REQ_IMPORT with a status other than zero.
    ImportStatus(u32),
    /// A direction other than 0 (out) and 1 (in).
    InvalidDirection(u32),
    /// An endpoint number that does not fit in four bits.
    InvalidEndpoint(u32),
    /// A transfer buffer above [`MAX_TRANSFER_BUFFER_LENGTH`].
    TransferBufferTooLong(u32),
    /// More isochronous packets than [`MAX_NUMBER_OF_PACKETS`].
    TooManyPackets(u32),
    /// An URB on a connection that has imported no device.
    NoImportedDevice,
    /// An URB whose sequence number is still in flight.
    DuplicateSeqnum(u32),
    /// An URB for another device than the imported one.
    DevidMismatch { devid: u32, expected: u32 },
    /// An URB beyond [`MAX_PENDING_URBS`].
    TooManyPendingUrbs,
    /// The URB workers are gone while URBs are in flight.
    WorkersClosed,
    /// No whole command has arrived in the time that the server waits for one.
    CommandTimedOut,
}

/// `v` as `0x` and at least two upper-case hexadecimal digits.
pub open spec fn code_text(v: u16) -> Seq<char> {
    if v < 16 {
        "0x0"@ + hex(v as nat, upper_digits())
    } else {
        "0x"@ + hex(v as nat, upper_digits())
    }
}

fn put_code(out: &mut String, v: u16)
    ensures
        final(out)@ == old(out)@ + code_text(v),
{
    if v < 16 {
        out.append("0x0");
    } else {
        out.append("0x");
    }
    put_upper_hex(out, v as u32);
    assert(out@ =~= old(out)@ + code_text(v));
}

impl ProtocolError {
    /// The kind of I/O error that this error is reported as.
    pub open spec fn kind_spec(self) -> ErrorKind {
        match self {
            ProtocolError::UnknownVersion(_) => ErrorKind::Other,
            ProtocolError::UnknownCommand(_) => ErrorKind::Other,
            ProtocolError::NoImportedDevice => ErrorKind::NotConnected,
            ProtocolError::TooManyPendingUrbs => ErrorKind::OutOfMemory,
            ProtocolError::WorkersClosed => ErrorKind::BrokenPipe,
            ProtocolError::CommandTimedOut => ErrorKind::TimedOut,
            _ => ErrorKind::InvalidData,
        }
    }

    /// The kind of I/O error that this error is reported as.
    pub fn kind(&self) -> (kind: ErrorKind)
        ensures
            kind == self.kind_spec(),
    {
        match self {
            ProtocolError::UnknownVersion(_) => ErrorKind::Other,
            ProtocolError::UnknownCommand(_) => ErrorKind::Other,
            ProtocolError::NoImportedDevice => ErrorKind::NotConnected,
            ProtocolError::TooManyPendingUrbs => ErrorKind::OutOfMemory,
            ProtocolError::WorkersClosed => ErrorKind::BrokenPipe,
            ProtocolError::CommandTimedOut => ErrorKind::TimedOut,
            _ => ErrorKind::InvalidData,
        }
    }

    /// The message that describes this error.
    pub open spec fn text(self) -> Seq<char> {
        match self {
            ProtocolError::UnknownVersion(v) => "Unknown version: "@ + code_text(v),
            ProtocolError::UnknownCommand(v) => "Unknown command: "@ + code_text(v),
            ProtocolError::DevlistStatus(v) => "OP_REQ_DEVLIST status must be 0, got "@ + decimal(
                v as nat,
            ),
            ProtocolError::ImportStatus(v) => "OP_REQ_IMPORT status must be 0, got "@ + decimal(
                v as nat,
            ),
            ProtocolError::InvalidDirection(v) => "invalid direction: "@ + decimal(v as nat),
            ProtocolError::InvalidEndpoint(v) => "invalid endpoint number: "@ + decimal(v as nat),
            ProtocolError::TransferBufferTooLong(v) => "transfer_buffer_length "@ + decimal(
                v as nat,
            ) + " exceeds limit "@ + decimal(MAX_TRANSFER_BUFFER_LENGTH as nat),
            ProtocolError::TooManyPackets(v) => "number_of_packets "@ + decimal(v as nat)
                + " exceeds limit "@ + decimal(MAX_NUMBER_OF_PACKETS as nat),
            ProtocolError::NoImportedDevice => "no imported device"@,
            ProtocolError::DuplicateSeqnum(v) => "duplicate USB/IP sequence number "@ + decimal(
                v as nat,
            ),
            ProtocolError::DevidMismatch { devid, expected } => "devid 0x"@ + hex(
                devid as nat,
                lower_digits(),
            ) + " does not match imported device 0x"@ + hex(expected as nat, lower_digits()),
            ProtocolError::TooManyPendingUrbs => "too many pending URBs (limit "@ + decimal(
                MAX_PENDING_URBS as nat,
            ) + ")"@,
            ProtocolError::WorkersClosed => "URB worker channel closed"@,
            ProtocolError::CommandTimedOut => "timed out waiting for USB/IP command"@,
        }
    }

    /// The message that describes this error.
    pub fn message(&self) -> (message: String)
        ensures
            message@ == self.text(),
    {
        let mut out = String::new();
        match *self {
            ProtocolError::UnknownVersion(v) => {
                out.append("Unknown version: ");
                put_code(&mut out, v);
            },
            ProtocolError::UnknownCommand(v) => {
                out.append("Unknown command: ");
                put_code(&mut out, v);
            },
            ProtocolError::DevlistStatus(v) => {
                out.append("OP_REQ_DEVLIST status must be 0, got ");
                put_decimal(&mut out, v);
            },
            ProtocolError::ImportStatus(v) => {
                out.append("OP_REQ_IMPORT status must be 0, got ");
                put_decimal(&mut out, v);
            },
            ProtocolError::InvalidDirection(v) => {
                out.append("invalid direction: ");
                put_decimal(&mut out, v);
            },
            ProtocolError::InvalidEndpoint(v) => {
                out.append("invalid endpoint number: ");
                put_decimal(&mut out, v);
            },
            ProtocolError::TransferBufferTooLong(v) => {
                out.append("transfer_buffer_length ");
                put_decimal(&mut out, v);
                out.append(" exceeds limit ");
                put_decimal(&mut out, MAX_TRANSFER_BUFFER_LENGTH);
            },
            ProtocolError::TooManyPackets(v) => {
                out.append("number_of_packets ");
                put_decimal(&mut out, v);
                out.append(" exceeds limit ");
                put_decimal(&mut out, MAX_NUMBER_OF_PACKETS);
            },
            ProtocolError::NoImportedDevice => {
                out.append("no imported device");
            },
            ProtocolError::DuplicateSeqnum(v) => {
                out.append("duplicate USB/IP sequence number ");
                put_decimal(&mut out, v);
            },
            ProtocolError::DevidMismatch { devid, expected } => {
                out.append("devid 0x");
                put_lower_hex(&mut out, devid);
                out.append(" does not match imported device 0x");
                put_lower_hex(&mut out, expected);
            },
            ProtocolError::TooManyPendingUrbs => {
                out.append("too many pending URBs (limit ");
                put_decimal(&mut out, MAX_PENDING_URBS as u32);
                out.append(")");
            },
            ProtocolError::WorkersClosed => {
                out.append("URB worker channel closed");
            },
            ProtocolError::CommandTimedOut => {
                out.append("timed out waiting for USB/IP command");
            },
        }
        assert(out@ =~= self.text());
        out
    }
}

/// No error is reported as a success.
pub proof fn law_errno_is_negative(kind: ErrorKind)
    ensures
        errno_of(kind) < 0,
{
}

/// The Linux error numbers of the kinds of errors; any other kind is an I/O
/// error.
pub proof fn law_error_numbers(kind: ErrorKind)
    ensures
        kind is NotFound ==> errno_of(kind) == -2,
        kind is PermissionDenied ==> errno_of(kind) == -13,
        kind is ConnectionRefused ==> errno_of(kind) == -111,
        kind is ConnectionReset ==> errno_of(kind) == -104,
        kind is ConnectionAborted ==> errno_of(kind) == -103,
        kind is NotConnected ==> errno_of(kind) == -107,
        kind is InvalidInput || kind is InvalidData ==> errno_of(kind) == -22,
        kind is TimedOut ==> errno_of(kind) == -110,
        kind is Interrupted ==> errno_of(kind) == -4,
        kind is Unsupported ==> errno_of(kind) == -95,
        kind is OutOfMemory ==> errno_of(kind) == -12,
        kind is BrokenPipe || kind is UnexpectedEof || kind is Other ==> errno_of(kind) == -5,
{
}

/// What each violation is reported as: a version or command that is not known
/// as some other error, what the client sent wrong as invalid data.
pub proof fn law_error_kinds(e: ProtocolError)
    ensures
        e is UnknownVersion || e is UnknownCommand ==> e.kind_spec() == ErrorKind::Other,
        e is DevlistStatus || e is ImportStatus || e is InvalidDirection || e is InvalidEndpoint
            || e is TransferBufferTooLong || e is TooManyPackets || e is DuplicateSeqnum
            || e is DevidMismatch ==> e.kind_spec() == ErrorKind::InvalidData,
        e is NoImportedDevice ==> e.kind_spec() == ErrorKind::NotConnected,
        e is TooManyPendingUrbs ==> e.kind_spec() == ErrorKind::OutOfMemory,
        e is WorkersClosed ==> e.kind_spec() == ErrorKind::BrokenPipe,
        e is CommandTimedOut ==> e.kind_spec() == ErrorKind::TimedOut,
{
}

/// Every message names what was wrong and the value that was.
pub proof fn law_error_messages(v: u16, n: u32, m: u32)
    ensures
        v >= 16 ==> ProtocolError::UnknownVersion(v).text() == "Unknown version: 0x"@ + hex(
            v as nat,
            upper_digits(),
        ),
        v >= 16 ==> ProtocolError::UnknownCommand(v).text() == "Unknown command: 0x"@ + hex(
            v as nat,
            upper_digits(),
        ),
        v < 16 ==> ProtocolError::UnknownVersion(v).text() == "Unknown version: 0x0"@ + hex(
            v as nat,
            upper_digits(),
        ),
        v < 16 ==> ProtocolError::UnknownCommand(v).text() == "Unknown command: 0x0"@ + hex(
            v as nat,
            upper_digits(),
        ),
        ProtocolError::DevlistStatus(n).text() == "OP_REQ_DEVLIST status must be 0, got "@
            + decimal(n as nat),
        ProtocolError::ImportStatus(n).text() == "OP_REQ_IMPORT status must be 0, got "@ + decimal(
            n as nat,
        ),
        ProtocolError::InvalidDirection(n).text() == "invalid direction: "@ + decimal(n as nat),
        ProtocolError::InvalidEndpoint(n).text() == "invalid endpoint number: "@ + decimal(
            n as nat,
        ),
        ProtocolError::TransferBufferTooLong(n).text() == "transfer_buffer_length "@ + decimal(
            n as nat,
        ) + " exceeds limit "@ + decimal(16_777_216),
        ProtocolError::TooManyPackets(n).text() == "number_of_packets "@ + decimal(n as nat)
            + " exceeds limit "@ + decimal(4096),
        ProtocolError::NoImportedDevice.text() == "no imported device"@,
        ProtocolError::DuplicateSeqnum(n).text() == "duplicate USB/IP sequence number "@ + decimal(
            n as nat,
        ),
        (ProtocolError::DevidMismatch { devid: n, expected: m }).text() == "devid 0x"@ + hex(
            n as nat,
            lower_digits(),
        ) + " does not match imported device 0x"@ + hex(m as nat, lower_digits()),
        ProtocolError::TooManyPendingUrbs.text() == "too many pending URBs (limit "@ + decimal(256)
            + ")"@,
        ProtocolError::WorkersClosed.text() == "URB worker channel closed"@,
        ProtocolError::CommandTimedOut.text() == "timed out waiting for USB/IP command"@,
{
    reveal_strlit("Unknown version: ");
    reveal_strlit("Unknown command: ");
    reveal_strlit("Unknown version: 0x");
    reveal_strlit("Unknown command: 0x");
    reveal_strlit("Unknown version: 0x0");
    reveal_strlit("Unknown command: 0x0");
    reveal_strlit("0x");
    reveal_strlit("0x0");
    let digits = hex(v as nat, upper_digits());
    assert("Unknown version: "@ + ("0x"@ + digits) =~= "Unknown version: 0x"@ + digits);
    assert("Unknown command: "@ + ("0x"@ + digits) =~= "Unknown command: 0x"@ + digits);
    assert("Unknown version: "@ + ("0x0"@ + digits) =~= "Unknown version: 0x0"@ + digits);
    assert("Unknown command: "@ + ("0x0"@ + digits) =~= "Unknown command: 0x0"@ + digits);
}

} // verus!
