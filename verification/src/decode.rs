//! Reading commands off a byte stream.
//!
//! A command arrives piece by piece. [`decode`] says of what has arrived so
//! far whether it is a whole command, violates the protocol, or has to go on,
//! and up to where: whoever reads the stream never takes a byte that belongs
//! to the next command and never waits for a byte after an error.

use vstd::prelude::*;

use crate::error::{ProtocolError, MAX_NUMBER_OF_PACKETS, MAX_TRANSFER_BUFFER_LENGTH};
use crate::usbip_protocol::{
    CommandView, SubmitView, UsbIpCommand, UsbIpHeaderBasic, DIRECTION_IN, NO_PACKETS,
    OP_REQ_DEVLIST, OP_REQ_IMPORT, USBIP_CMD_SUBMIT, USBIP_CMD_UNLINK, USBIP_VERSION,
};
use crate::wire::{
    be16, be16_at, be32, be32_at, copy_range, get_be16, get_be32, lemma_be16_read_back,
    lemma_be32_read_back, lemma_be32_write_back, put_bytes,
};

verus! {

/// Size in bytes of each ISO packet descriptor on the wire.
pub const ISO_PACKET_DESCRIPTOR_SIZE: usize = 16;

/// What the bytes that have arrived so far amount to.
#[derive(Debug)]
pub enum Decoded {
    /// Nothing yet: there have to be so many bytes before more can be said.
    Incomplete(usize),
    /// A violation of the protocol.
    Invalid(ProtocolError),
    /// A command, and how many bytes it took.
    Complete(UsbIpCommand, usize),
}

/// What a [`Decoded`] says.
#[verifier::ext_equal]
pub enum DecodedView {
    Incomplete(nat),
    Invalid(ProtocolError),
    Complete(CommandView, nat),
}

impl View for Decoded {
    type V = DecodedView;

    open spec fn view(&self) -> DecodedView {
        match self {
            Decoded::Incomplete(n) => DecodedView::Incomplete(*n as nat),
            Decoded::Invalid(e) => DecodedView::Invalid(*e),
            Decoded::Complete(c, n) => DecodedView::Complete(c@, *n as nat),
        }
    }
}

/// The header that follows a command code, as [`UsbIpHeaderBasic`] holds it.
pub open spec fn header_after(s: Seq<u8>, command: u16) -> UsbIpHeaderBasic {
    UsbIpHeaderBasic {
        command: command as u32,
        seqnum: be32_at(s, 4),
        devid: be32_at(s, 8),
        direction: be32_at(s, 12),
        ep: be32_at(s, 16),
    }
}

/// How many bytes of data follow an URB.
pub open spec fn data_length(header: UsbIpHeaderBasic, transfer_buffer_length: u32) -> nat {
    if header.direction == DIRECTION_IN {
        0
    } else {
        transfer_buffer_length as nat
    }
}

/// How many bytes of ISO packet descriptors follow an URB.
pub open spec fn iso_length(number_of_packets: u32) -> nat {
    if number_of_packets == 0 || number_of_packets == NO_PACKETS {
        0
    } else {
        ISO_PACKET_DESCRIPTOR_SIZE as nat * number_of_packets as nat
    }
}

/// Whether a number of ISO packets is within the limit.
pub open spec fn packets_accepted(number_of_packets: u32) -> bool {
    number_of_packets == NO_PACKETS || number_of_packets <= MAX_NUMBER_OF_PACKETS
}

/// What the bytes `s`, taken as the beginning of a stream, amount to.
pub open spec fn decode(s: Seq<u8>) -> DecodedView {
    if s.len() < 2 {
        DecodedView::Incomplete(2)
    } else if be16_at(s, 0) != 0 && be16_at(s, 0) != USBIP_VERSION {
        DecodedView::Invalid(ProtocolError::UnknownVersion(be16_at(s, 0)))
    } else if s.len() < 4 {
        DecodedView::Incomplete(4)
    } else if be16_at(s, 2) == OP_REQ_DEVLIST {
        decode_devlist(s)
    } else if be16_at(s, 2) == OP_REQ_IMPORT {
        decode_import(s)
    } else if be16_at(s, 2) == USBIP_CMD_SUBMIT {
        decode_submit(s)
    } else if be16_at(s, 2) == USBIP_CMD_UNLINK {
        decode_unlink(s)
    } else {
        DecodedView::Invalid(ProtocolError::UnknownCommand(be16_at(s, 2)))
    }
}

/// [`decode`] where the command code is OP_REQ_DEVLIST.
pub open spec fn decode_devlist(s: Seq<u8>) -> DecodedView {
    if s.len() < 8 {
        DecodedView::Incomplete(8)
    } else if be32_at(s, 4) != 0 {
        DecodedView::Invalid(ProtocolError::DevlistStatus(be32_at(s, 4)))
    } else {
        DecodedView::Complete(CommandView::Devlist { status: 0 }, 8)
    }
}

/// [`decode`] where the command code is OP_REQ_IMPORT.
pub open spec fn decode_import(s: Seq<u8>) -> DecodedView {
    if s.len() < 8 {
        DecodedView::Incomplete(8)
    } else if be32_at(s, 4) != 0 {
        DecodedView::Invalid(ProtocolError::ImportStatus(be32_at(s, 4)))
    } else if s.len() < 40 {
        DecodedView::Incomplete(40)
    } else {
        DecodedView::Complete(CommandView::Import { status: 0, busid: s.subrange(8, 40) }, 40)
    }
}

/// [`decode`] where the command code is USBIP_CMD_SUBMIT.
pub open spec fn decode_submit(s: Seq<u8>) -> DecodedView {
    let header = header_after(s, USBIP_CMD_SUBMIT);
    let tbl = be32_at(s, 24);
    let packets = be32_at(s, 32);
    if s.len() < 20 {
        DecodedView::Incomplete(20)
    } else if header.violation() is Some {
        DecodedView::Invalid(header.violation()->0)
    } else if s.len() < 40 {
        DecodedView::Incomplete(40)
    } else if tbl > MAX_TRANSFER_BUFFER_LENGTH {
        DecodedView::Invalid(ProtocolError::TransferBufferTooLong(tbl))
    } else if !packets_accepted(packets) {
        DecodedView::Invalid(ProtocolError::TooManyPackets(packets))
    } else {
        let data_end = 48 + data_length(header, tbl);
        let end = data_end + iso_length(packets);
        if s.len() < end {
            DecodedView::Incomplete(end)
        } else {
            DecodedView::Complete(
                CommandView::Submit(
                    SubmitView {
                        header,
                        transfer_flags: be32_at(s, 20),
                        transfer_buffer_length: tbl,
                        start_frame: be32_at(s, 28),
                        number_of_packets: packets,
                        interval: be32_at(s, 36),
                        setup: s.subrange(40, 48),
                        data: s.subrange(48, data_end as int),
                        iso_packet_descriptor: s.subrange(data_end as int, end as int),
                    },
                ),
                end,
            )
        }
    }
}

/// [`decode`] where the command code is USBIP_CMD_UNLINK.
pub open spec fn decode_unlink(s: Seq<u8>) -> DecodedView {
    let header = header_after(s, USBIP_CMD_UNLINK);
    if s.len() < 20 {
        DecodedView::Incomplete(20)
    } else if header.violation() is Some {
        DecodedView::Invalid(header.violation()->0)
    } else if s.len() < 48 {
        DecodedView::Incomplete(48)
    } else {
        DecodedView::Complete(CommandView::Unlink { header, unlink_seqnum: be32_at(s, 20) }, 48)
    }
}

/// The header that follows a command code.
fn read_header(s: &[u8], command: u16) -> (r: UsbIpHeaderBasic)
    requires
        s@.len() >= 20,
    ensures
        r == header_after(s@, command),
{
    UsbIpHeaderBasic {
        command: command as u32,
        seqnum: get_be32(s, 4),
        devid: get_be32(s, 8),
        direction: get_be32(s, 12),
        ep: get_be32(s, 16),
    }
}

fn read_busid(s: &[u8]) -> (r: [u8; 32])
    requires
        s@.len() >= 40,
    ensures
        r@ == s@.subrange(8, 40),
{
    let mut r: [u8; 32] = [0; 32];
    let mut i: usize = 0;
    while i < 32
        invariant
            i <= 32,
            s@.len() >= 40,
            r@.len() == 32,
            forall|j: int| 0 <= j < i ==> r@[j] == s@[8 + j],
        decreases 32 - i,
    {
        r[i] = s[8 + i];
        i += 1;
    }
    assert(r@ =~= s@.subrange(8, 40));
    r
}

fn read_setup(s: &[u8]) -> (r: [u8; 8])
    requires
        s@.len() >= 48,
    ensures
        r@ == s@.subrange(40, 48),
{
    let r = [s[40], s[41], s[42], s[43], s[44], s[45], s[46], s[47]];
    assert(r@ =~= s@.subrange(40, 48));
    r
}

impl UsbIpCommand {
    /// What the bytes that have arrived on a connection since the last command
    /// amount to.
    pub fn decode(s: &[u8]) -> (r: Decoded)
        ensures
            r@ == decode(s@),
    {
        if s.len() < 2 {
            return Decoded::Incomplete(2);
        }
        let version: u16 = get_be16(s, 0);
        if version != 0 && version != USBIP_VERSION {
            return Decoded::Invalid(ProtocolError::UnknownVersion(version));
        }
        if s.len() < 4 {
            return Decoded::Incomplete(4);
        }
        let command: u16 = get_be16(s, 2);
        if command == OP_REQ_DEVLIST {
            Self::decode_devlist(s)
        } else if command == OP_REQ_IMPORT {
            Self::decode_import(s)
        } else if command == USBIP_CMD_SUBMIT {
            Self::decode_submit(s)
        } else if command == USBIP_CMD_UNLINK {
            Self::decode_unlink(s)
        } else {
            Decoded::Invalid(ProtocolError::UnknownCommand(command))
        }
    }

    fn decode_devlist(s: &[u8]) -> (r: Decoded)
        ensures
            r@ == decode_devlist(s@),
    {
        if s.len() < 8 {
            return Decoded::Incomplete(8);
        }
        let status: u32 = get_be32(s, 4);
        if status != 0 {
            return Decoded::Invalid(ProtocolError::DevlistStatus(status));
        }
        Decoded::Complete(UsbIpCommand::OpReqDevlist { status }, 8)
    }

    fn decode_import(s: &[u8]) -> (r: Decoded)
        ensures
            r@ == decode_import(s@),
    {
        if s.len() < 8 {
            return Decoded::Incomplete(8);
        }
        let status: u32 = get_be32(s, 4);
        if status != 0 {
            return Decoded::Invalid(ProtocolError::ImportStatus(status));
        }
        if s.len() < 40 {
            return Decoded::Incomplete(40);
        }
        Decoded::Complete(UsbIpCommand::OpReqImport { status, busid: read_busid(s) }, 40)
    }

    fn decode_submit(s: &[u8]) -> (r: Decoded)
        ensures
            r@ == decode_submit(s@),
    {
        if s.len() < 20 {
            return Decoded::Incomplete(20);
        }
        let header = read_header(s, USBIP_CMD_SUBMIT);
        match header.validate() {
            Err(e) => return Decoded::Invalid(e),
            Ok(()) => {},
        }
        if s.len() < 40 {
            return Decoded::Incomplete(40);
        }
        let transfer_buffer_length: u32 = get_be32(s, 24);
        let number_of_packets: u32 = get_be32(s, 32);
        if transfer_buffer_length > MAX_TRANSFER_BUFFER_LENGTH {
            return Decoded::Invalid(ProtocolError::TransferBufferTooLong(transfer_buffer_length));
        }
        if number_of_packets != 0 && number_of_packets != NO_PACKETS && number_of_packets
            > MAX_NUMBER_OF_PACKETS {
            return Decoded::Invalid(ProtocolError::TooManyPackets(number_of_packets));
        }
        let data_end: usize = if header.direction == DIRECTION_IN {
            48
        } else {
            48 + transfer_buffer_length as usize
        };
        let end: usize = if number_of_packets != 0 && number_of_packets != NO_PACKETS {
            data_end + ISO_PACKET_DESCRIPTOR_SIZE * number_of_packets as usize
        } else {
            data_end
        };
        if s.len() < end {
            return Decoded::Incomplete(end);
        }
        Decoded::Complete(
            UsbIpCommand::UsbIpCmdSubmit {
                header,
                transfer_flags: get_be32(s, 20),
                transfer_buffer_length,
                start_frame: get_be32(s, 28),
                number_of_packets,
                interval: get_be32(s, 36),
                setup: read_setup(s),
                data: copy_range(s, 48, data_end),
                iso_packet_descriptor: copy_range(s, data_end, end),
            },
            end,
        )
    }

    fn decode_unlink(s: &[u8]) -> (r: Decoded)
        ensures
            r@ == decode_unlink(s@),
    {
        if s.len() < 20 {
            return Decoded::Incomplete(20);
        }
        let header = read_header(s, USBIP_CMD_UNLINK);
        match header.validate() {
            Err(e) => return Decoded::Invalid(e),
            Ok(()) => {},
        }
        if s.len() < 48 {
            return Decoded::Incomplete(48);
        }
        Decoded::Complete(
            UsbIpCommand::UsbIpCmdUnlink { header, unlink_seqnum: get_be32(s, 20) },
            48,
        )
    }
}

impl CommandView {
    /// Whether the server accepts this command off the network.
    pub open spec fn acceptable(self) -> bool {
        match self {
            CommandView::Devlist { status } => status == 0,
            CommandView::Import { status, busid } => status == 0 && busid.len() == 32,
            CommandView::Submit(c) => {
                &&& c.header.command == USBIP_CMD_SUBMIT
                &&& c.header.violation() is None
                &&& c.transfer_buffer_length <= MAX_TRANSFER_BUFFER_LENGTH
                &&& packets_accepted(c.number_of_packets)
                &&& c.setup.len() == 8
                &&& c.data.len() == data_length(c.header, c.transfer_buffer_length)
                &&& c.iso_packet_descriptor.len() == iso_length(c.number_of_packets)
            },
            CommandView::Unlink { header, .. } => {
                &&& header.command == USBIP_CMD_UNLINK
                &&& header.violation() is None
            },
        }
    }
}

proof fn lemma_header_fields(s: Seq<u8>, header: UsbIpHeaderBasic, command: u16)
    requires
        s.len() >= 20,
        s.subrange(0, 20) == header.wire(),
        header.command == command,
    ensures
        be16_at(s, 0) == 0,
        be16_at(s, 2) == command,
        header_after(s, command) == header,
{
    let w = s.subrange(0, 20);
    assert(s.subrange(0, 4) =~= w.subrange(0, 4));
    assert(s.subrange(4, 8) =~= w.subrange(4, 8));
    assert(s.subrange(8, 12) =~= w.subrange(8, 12));
    assert(s.subrange(12, 16) =~= w.subrange(12, 16));
    assert(s.subrange(16, 20) =~= w.subrange(16, 20));
    assert(w.subrange(0, 4) =~= be32(header.command));
    assert(w.subrange(4, 8) =~= be32(header.seqnum));
    assert(w.subrange(8, 12) =~= be32(header.devid));
    assert(w.subrange(12, 16) =~= be32(header.direction));
    assert(w.subrange(16, 20) =~= be32(header.ep));
    lemma_be32_read_back(s, 4, header.seqnum);
    lemma_be32_read_back(s, 8, header.devid);
    lemma_be32_read_back(s, 12, header.direction);
    lemma_be32_read_back(s, 16, header.ep);
    assert(s.subrange(0, 2) =~= be16(0)) by {
        assert(s[0] == s.subrange(0, 4)[0] && s[1] == s.subrange(0, 4)[1]);
    }
    assert(s.subrange(2, 4) =~= be16(command)) by {
        assert(s[2] == s.subrange(0, 4)[2] && s[3] == s.subrange(0, 4)[3]);
    }
    lemma_be16_read_back(s, 0, 0);
    lemma_be16_read_back(s, 2, command);
}

proof fn lemma_op_fields(s: Seq<u8>, command: u16, status: u32)
    requires
        s.len() >= 8,
        s.subrange(0, 8) == be16(USBIP_VERSION) + be16(command) + be32(status),
    ensures
        be16_at(s, 0) == USBIP_VERSION,
        be16_at(s, 2) == command,
        be32_at(s, 4) == status,
{
    let w = s.subrange(0, 8);
    assert(s.subrange(0, 2) =~= w.subrange(0, 2));
    assert(s.subrange(2, 4) =~= w.subrange(2, 4));
    assert(s.subrange(4, 8) =~= w.subrange(4, 8));
    assert(w.subrange(0, 2) =~= be16(USBIP_VERSION));
    assert(w.subrange(2, 4) =~= be16(command));
    assert(w.subrange(4, 8) =~= be32(status));
    lemma_be16_read_back(s, 0, USBIP_VERSION);
    lemma_be16_read_back(s, 2, command);
    lemma_be32_read_back(s, 4, status);
}

proof fn lemma_submit_fields(s: Seq<u8>, c: SubmitView)
    requires
        s.len() >= 48,
        c.setup.len() == 8,
        s.subrange(0, 48) == c.fixed_wire(),
    ensures
        s.subrange(0, 20) == c.header.wire(),
        be32_at(s, 20) == c.transfer_flags,
        be32_at(s, 24) == c.transfer_buffer_length,
        be32_at(s, 28) == c.start_frame,
        be32_at(s, 32) == c.number_of_packets,
        be32_at(s, 36) == c.interval,
        s.subrange(40, 48) == c.setup,
{
    let w = s.subrange(0, 48);
    assert(s.subrange(0, 20) =~= w.subrange(0, 20));
    assert(s.subrange(20, 24) =~= w.subrange(20, 24));
    assert(s.subrange(24, 28) =~= w.subrange(24, 28));
    assert(s.subrange(28, 32) =~= w.subrange(28, 32));
    assert(s.subrange(32, 36) =~= w.subrange(32, 36));
    assert(s.subrange(36, 40) =~= w.subrange(36, 40));
    assert(s.subrange(40, 48) =~= w.subrange(40, 48));
    assert(w.subrange(0, 20) =~= c.header.wire());
    assert(w.subrange(20, 24) =~= be32(c.transfer_flags));
    assert(w.subrange(24, 28) =~= be32(c.transfer_buffer_length));
    assert(w.subrange(28, 32) =~= be32(c.start_frame));
    assert(w.subrange(32, 36) =~= be32(c.number_of_packets));
    assert(w.subrange(36, 40) =~= be32(c.interval));
    assert(w.subrange(40, 48) =~= c.setup);
    lemma_be32_read_back(s, 20, c.transfer_flags);
    lemma_be32_read_back(s, 24, c.transfer_buffer_length);
    lemma_be32_read_back(s, 28, c.start_frame);
    lemma_be32_read_back(s, 32, c.number_of_packets);
    lemma_be32_read_back(s, 36, c.interval);
}

proof fn lemma_four_pieces(a: Seq<u8>, b: Seq<u8>, c: Seq<u8>, d: Seq<u8>)
    ensures
        ({
            let s = a + b + c + d;
            let ab = (a.len() + b.len()) as int;
            &&& s.len() == a.len() + b.len() + c.len() + d.len()
            &&& s.subrange(0, a.len() as int) == a
            &&& s.subrange(a.len() as int, ab) == b
            &&& s.subrange(ab, ab + c.len()) == c
        }),
{
    let s = a + b + c + d;
    let ab = (a.len() + b.len()) as int;
    assert(s.subrange(0, a.len() as int) =~= a);
    assert(s.subrange(a.len() as int, ab) =~= b);
    assert(s.subrange(ab, ab + c.len()) =~= c);
}

proof fn lemma_fixed_wire_length(submit: SubmitView)
    requires
        submit.setup.len() == 8,
    ensures
        submit.fixed_wire().len() == 48,
{
}

#[verifier::spinoff_prover]
proof fn lemma_decode_submit(s: Seq<u8>, submit: SubmitView)
    requires
        CommandView::Submit(submit).acceptable(),
        s.len() >= 48 + submit.data.len() + submit.iso_packet_descriptor.len(),
        s.subrange(0, 48) == submit.fixed_wire(),
        s.subrange(48, 48int + submit.data.len()) == submit.data,
        s.subrange(
            48int + submit.data.len(),
            48int + submit.data.len() + submit.iso_packet_descriptor.len(),
        ) == submit.iso_packet_descriptor,
    ensures
        decode(s) == DecodedView::Complete(
            CommandView::Submit(submit),
            48 + submit.data.len() + submit.iso_packet_descriptor.len(),
        ),
{
    lemma_submit_fields(s, submit);
    lemma_header_fields(s, submit.header, USBIP_CMD_SUBMIT);
}

#[verifier::spinoff_prover]
proof fn lemma_write_then_read_submit(c: CommandView, rest: Seq<u8>)
    requires
        c.acceptable(),
        c is Submit,
    ensures
        decode(c.wire() + rest) == DecodedView::Complete(c, c.wire().len()),
{
    let submit = c->Submit_0;
    lemma_fixed_wire_length(submit);
    lemma_four_pieces(
        submit.fixed_wire(),
        submit.data,
        submit.iso_packet_descriptor,
        rest,
    );
    lemma_decode_submit(c.wire() + rest, submit);
}

proof fn lemma_write_then_read_unlink(c: CommandView, rest: Seq<u8>)
    requires
        c.acceptable(),
        c is Unlink,
    ensures
        decode(c.wire() + rest) == DecodedView::Complete(c, c.wire().len()),
{
    let s = c.wire() + rest;
    let header = c->Unlink_header;
    assert(c.wire().len() == 48);
    assert(s.subrange(0, 20) =~= header.wire());
    assert(s.subrange(20, 24) =~= be32(c->unlink_seqnum));
    lemma_header_fields(s, header, USBIP_CMD_UNLINK);
    lemma_be32_read_back(s, 20, c->unlink_seqnum);
}

proof fn lemma_write_then_read_op(c: CommandView, rest: Seq<u8>)
    requires
        c.acceptable(),
        c is Devlist || c is Import,
    ensures
        decode(c.wire() + rest) == DecodedView::Complete(c, c.wire().len()),
{
    let s = c.wire() + rest;
    match c {
        CommandView::Devlist { status } => {
            assert(s.subrange(0, 8) =~= c.wire());
            lemma_op_fields(s, OP_REQ_DEVLIST, status);
        },
        CommandView::Import { status, busid } => {
            assert(s.subrange(0, 8) =~= be16(USBIP_VERSION) + be16(OP_REQ_IMPORT) + be32(status));
            assert(s.subrange(8, 40) =~= busid);
            lemma_op_fields(s, OP_REQ_IMPORT, status);
        },
        _ => {},
    }
}

/// Writing a command and reading it gives the command back, whatever follows
/// it on the stream, and takes exactly its own bytes.
pub proof fn law_write_then_read(c: CommandView, rest: Seq<u8>)
    requires
        c.acceptable(),
    ensures
        decode(c.wire() + rest) == DecodedView::Complete(c, c.wire().len()),
{
    match c {
        CommandView::Submit(_) => lemma_write_then_read_submit(c, rest),
        CommandView::Unlink { .. } => lemma_write_then_read_unlink(c, rest),
        _ => lemma_write_then_read_op(c, rest),
    }
}

proof fn lemma_header_write_back(s: Seq<u8>, header: UsbIpHeaderBasic, command: u16)
    requires
        s.len() >= 20,
        header == header_after(s, command),
        be16_at(s, 2) == command,
    ensures
        header.wire().subrange(2, 20) == s.subrange(2, 20),
{
    lemma_be32_write_back(s, 4);
    lemma_be32_write_back(s, 8);
    lemma_be32_write_back(s, 12);
    lemma_be32_write_back(s, 16);
    let w = header.wire();
    assert(w[2] == s[2] && w[3] == s[3]);
    assert(w.subrange(4, 20) =~= s.subrange(4, 8) + s.subrange(8, 12) + s.subrange(12, 16)
        + s.subrange(16, 20));
    assert(w.subrange(4, 20) =~= s.subrange(4, 20));
    assert(w.subrange(2, 20) =~= seq![w[2], w[3]] + w.subrange(4, 20));
    assert(s.subrange(2, 20) =~= seq![s[2], s[3]] + s.subrange(4, 20));
}

/// What a complete command says of the bytes it was read from.
spec fn reads_back(s: Seq<u8>, d: DecodedView) -> bool {
    d matches DecodedView::Complete(c, n) ==> {
        &&& c.acceptable()
        &&& c.serializable()
        &&& n <= s.len()
        &&& c.wire().len() == n
        &&& if c is Unlink {
            c.wire().subrange(2, 24) == s.subrange(2, 24)
        } else {
            c.wire().subrange(2, n as int) == s.subrange(2, n as int)
        }
    }
}

#[verifier::spinoff_prover]
proof fn lemma_fixed_write_back(s: Seq<u8>, submit: SubmitView)
    requires
        s.len() >= 48,
        submit.header == header_after(s, USBIP_CMD_SUBMIT),
        submit.transfer_flags == be32_at(s, 20),
        submit.transfer_buffer_length == be32_at(s, 24),
        submit.start_frame == be32_at(s, 28),
        submit.number_of_packets == be32_at(s, 32),
        submit.interval == be32_at(s, 36),
        submit.setup == s.subrange(40, 48),
        be16_at(s, 2) == USBIP_CMD_SUBMIT,
    ensures
        submit.fixed_wire().subrange(2, 48) == s.subrange(2, 48),
{
    lemma_header_write_back(s, submit.header, USBIP_CMD_SUBMIT);
    lemma_be32_write_back(s, 20);
    lemma_be32_write_back(s, 24);
    lemma_be32_write_back(s, 28);
    lemma_be32_write_back(s, 32);
    lemma_be32_write_back(s, 36);
    let h = submit.header.wire();
    assert(h.len() == 20);
    lemma_six_words(h, s);
}

proof fn lemma_six_words(h: Seq<u8>, s: Seq<u8>)
    requires
        s.len() >= 48,
        h.len() == 20,
        h.subrange(2, 20) == s.subrange(2, 20),
    ensures
        (h + s.subrange(20, 24) + s.subrange(24, 28) + s.subrange(28, 32) + s.subrange(32, 36)
            + s.subrange(36, 40) + s.subrange(40, 48)).subrange(2, 48) == s.subrange(2, 48),
{
    let f = h + s.subrange(20, 24) + s.subrange(24, 28) + s.subrange(28, 32) + s.subrange(32, 36)
        + s.subrange(36, 40) + s.subrange(40, 48);
    assert(f.subrange(2, 48) =~= h.subrange(2, 20) + s.subrange(20, 48));
    assert(f.subrange(2, 48) =~= s.subrange(2, 48));
}

proof fn lemma_after_fixed(f: Seq<u8>, s: Seq<u8>, middle: int, end: int)
    requires
        f.len() == 48,
        48 <= middle <= end <= s.len(),
        f.subrange(2, 48) == s.subrange(2, 48),
    ensures
        ({
            let w = f + s.subrange(48, middle) + s.subrange(middle, end);
            &&& w.len() == end
            &&& w.subrange(2, end) == s.subrange(2, end)
        }),
{
    let w = f + s.subrange(48, middle) + s.subrange(middle, end);
    assert(w.subrange(2, end) =~= f.subrange(2, 48) + s.subrange(48, end));
    assert(w.subrange(2, end) =~= s.subrange(2, end));
}

#[verifier::spinoff_prover]
proof fn lemma_read_then_write_submit(s: Seq<u8>)
    requires
        s.len() >= 4,
        be16_at(s, 2) == USBIP_CMD_SUBMIT,
    ensures
        reads_back(s, decode_submit(s)),
{
    if let DecodedView::Complete(c, n) = decode_submit(s) {
        let submit = c->Submit_0;
        let middle = 48 + submit.data.len();
        lemma_fixed_wire_length(submit);
        lemma_fixed_write_back(s, submit);
        lemma_after_fixed(submit.fixed_wire(), s, middle as int, n as int);
    }
}

proof fn lemma_read_then_write_unlink(s: Seq<u8>)
    requires
        s.len() >= 4,
        be16_at(s, 2) == USBIP_CMD_UNLINK,
    ensures
        reads_back(s, decode_unlink(s)),
{
    if let DecodedView::Complete(c, n) = decode_unlink(s) {
        let header = c->Unlink_header;
        lemma_header_write_back(s, header, USBIP_CMD_UNLINK);
        lemma_be32_write_back(s, 20);
        let h = header.wire();
        assert(c.wire().len() == 48);
        assert(c.wire().subrange(2, 24) =~= h.subrange(2, 20) + s.subrange(20, 24));
        assert(c.wire().subrange(2, 24) =~= s.subrange(2, 24));
    }
}

proof fn lemma_read_then_write_op(s: Seq<u8>)
    requires
        s.len() >= 4,
    ensures
        be16_at(s, 2) == OP_REQ_DEVLIST ==> reads_back(s, decode_devlist(s)),
        be16_at(s, 2) == OP_REQ_IMPORT ==> reads_back(s, decode_import(s)),
{
    let code = be16(be16_at(s, 2));
    assert(code =~= seq![s[2], s[3]]);
    if s.len() >= 8 && be32_at(s, 4) == 0 {
        lemma_be32_write_back(s, 4);
        let head = be16(USBIP_VERSION) + code + be32(0);
        assert(s.subrange(2, 8) =~= seq![s[2], s[3]] + s.subrange(4, 8));
        assert(head.subrange(2, 8) =~= s.subrange(2, 8));
        if s.len() >= 40 {
            let w = head + s.subrange(8, 40);
            assert(w.subrange(2, 40) =~= head.subrange(2, 8) + s.subrange(8, 40));
            assert(w.subrange(2, 40) =~= s.subrange(2, 40));
        }
    }
}

/// A command that was read is within the limits of the server, and writing it
/// gives the bytes that were read back, but for the version, which may have
/// been zero or not, and the padding of an unlink.
pub proof fn law_read_then_write(s: Seq<u8>)
    ensures
        decode(s) matches DecodedView::Complete(c, n) ==> {
            &&& c.acceptable()
            &&& c.serializable()
            &&& n <= s.len()
            &&& c.wire().len() == n
            &&& if c is Unlink {
                c.wire().subrange(2, 24) == s.subrange(2, 24)
            } else {
                c.wire().subrange(2, n as int) == s.subrange(2, n as int)
            }
        },
{
    if s.len() >= 4 {
        lemma_read_then_write_op(s);
        if be16_at(s, 2) == USBIP_CMD_SUBMIT {
            lemma_read_then_write_submit(s);
        }
        if be16_at(s, 2) == USBIP_CMD_UNLINK {
            lemma_read_then_write_unlink(s);
        }
    }
    assert(reads_back(s, decode(s)));
}

/// Bytes that arrive later do not change what was said of the bytes before
/// them: neither a command nor a violation.
pub proof fn law_decided_once(s: Seq<u8>, rest: Seq<u8>)
    requires
        !(decode(s) is Incomplete),
    ensures
        decode(s + rest) == decode(s),
{
    let t = s + rest;
    assert(t.subrange(0, s.len() as int) =~= s);
    lemma_same_prefix(s, t);
}

/// Bytes that arrive before the number asked for change nothing, and that
/// number is always more than what is there and never more than the largest
/// command.
pub proof fn law_asks_for_what_it_needs(s: Seq<u8>, rest: Seq<u8>)
    ensures
        decode(s) matches DecodedView::Incomplete(n) ==> {
            &&& s.len() < n
            &&& n <= 48 + MAX_TRANSFER_BUFFER_LENGTH + ISO_PACKET_DESCRIPTOR_SIZE
                * MAX_NUMBER_OF_PACKETS
            &&& s.len() + rest.len() < n ==> decode(s + rest) == decode(s)
        },
{
    let t = s + rest;
    assert(t.subrange(0, s.len() as int) =~= s);
    lemma_same_prefix(s, t);
}

/// Two streams that agree as far as the first goes agree in every field that
/// the first holds.
proof fn lemma_same_prefix(s: Seq<u8>, t: Seq<u8>)
    requires
        s.len() <= t.len(),
        t.subrange(0, s.len() as int) == s,
    ensures
        s.len() >= 2 ==> be16_at(t, 0) == be16_at(s, 0),
        s.len() >= 4 ==> be16_at(t, 2) == be16_at(s, 2),
        forall|i: int| 0 <= i && i + 4 <= s.len() ==> #[trigger] be32_at(t, i) == be32_at(s, i),
        forall|i: int, j: int|
            0 <= i <= j <= s.len() ==> #[trigger] t.subrange(i, j) == s.subrange(i, j),
{
    assert forall|i: int| 0 <= i < s.len() implies t[i] == s[i] by {
        assert(t.subrange(0, s.len() as int)[i] == s[i]);
    }
    assert forall|i: int, j: int| 0 <= i <= j <= s.len() implies #[trigger] t.subrange(i, j)
        == s.subrange(i, j) by {
        assert(t.subrange(i, j) =~= s.subrange(i, j));
    }
}

/// What has arrived on a connection and was not taken for a command yet.
#[derive(Debug)]
pub struct CommandReader {
    arrived: Vec<u8>,
}

impl View for CommandReader {
    type V = Seq<u8>;

    closed spec fn view(&self) -> Seq<u8> {
        self.arrived@
    }
}

impl CommandReader {
    pub fn new() -> (r: Self)
        ensures
            r@ == Seq::<u8>::empty(),
    {
        CommandReader { arrived: Vec::new() }
    }

    /// How many bytes have arrived and were not taken yet.
    pub fn len(&self) -> (r: usize)
        ensures
            r == self@.len(),
    {
        self.arrived.len()
    }

    /// Takes note of bytes that have arrived.
    pub fn feed(&mut self, bytes: &[u8])
        ensures
            final(self)@ == old(self)@ + bytes@,
    {
        put_bytes(&mut self.arrived, bytes);
    }

    /// The next command, if all of it has arrived. Its bytes are taken.
    pub fn next(&mut self) -> (r: Decoded)
        ensures
            r@ == decode(old(self)@),
            final(self)@ == (match decode(old(self)@) {
                DecodedView::Complete(_, n) => old(self)@.skip(n as int),
                _ => old(self)@,
            }),
    {
        let r = UsbIpCommand::decode(self.arrived.as_slice());
        match &r {
            Decoded::Complete(_, n) => {
                proof {
                    law_read_then_write(self.arrived@);
                }
                let rest = copy_range(self.arrived.as_slice(), *n, self.arrived.len());
                assert(rest@ =~= old(self)@.skip(*n as int));
                self.arrived = rest;
            },
            _ => {},
        }
        r
    }
}

/// The commands at the beginning of a stream, up to the first one that is not
/// whole or violates the protocol, and what follows them.
#[verifier::opaque]
pub open spec fn commands(s: Seq<u8>) -> (Seq<CommandView>, Seq<u8>)
    decreases s.len(),
{
    match decode(s) {
        DecodedView::Complete(c, n) => if 0 < n <= s.len() {
            let (others, rest) = commands(s.skip(n as int));
            (seq![c] + others, rest)
        } else {
            (seq![], s)
        },
        _ => (seq![], s),
    }
}

/// The bytes of commands, one after the other.
pub open spec fn wires(cs: Seq<CommandView>) -> Seq<u8>
    decreases cs.len(),
{
    if cs.len() == 0 {
        seq![]
    } else {
        cs[0].wire() + wires(cs.skip(1))
    }
}

proof fn lemma_wire_is_not_empty(c: CommandView)
    requires
        c.acceptable(),
    ensures
        c.wire().len() >= 8,
{
}

proof fn lemma_after_first(first: Seq<u8>, others: Seq<u8>, rest: Seq<u8>)
    ensures
        first + others + rest == first + (others + rest),
        (first + (others + rest)).skip(first.len() as int) == others + rest,
{
    assert(first + others + rest =~= first + (others + rest));
    assert((first + (others + rest)).skip(first.len() as int) =~= others + rest);
}

/// Commands that are written one after the other are read as they were
/// written, and what follows them is left alone.
pub proof fn law_stream_round_trip(cs: Seq<CommandView>, rest: Seq<u8>)
    requires
        forall|i: int| 0 <= i < cs.len() ==> (#[trigger] cs[i]).acceptable(),
    ensures
        commands(wires(cs) + rest) == (cs + commands(rest).0, commands(rest).1),
    decreases cs.len(),
{
    if cs.len() == 0 {
        assert(wires(cs) + rest =~= rest);
        assert(cs + commands(rest).0 =~= commands(rest).0);
    } else {
        let others = cs.skip(1);
        assert forall|i: int| 0 <= i < others.len() implies (#[trigger] others[i]).acceptable() by {
            assert(others[i] == cs[i + 1]);
        }
        law_stream_round_trip(others, rest);
        lemma_first_command(cs[0], wires(others), rest);
        assert(seq![cs[0]] + (others + commands(rest).0) =~= cs + commands(rest).0);
    }
}

proof fn lemma_first_command(c: CommandView, others: Seq<u8>, rest: Seq<u8>)
    requires
        c.acceptable(),
    ensures
        commands(c.wire() + others + rest) == (
            seq![c] + commands(others + rest).0,
            commands(others + rest).1,
        ),
{
    reveal_with_fuel(commands, 1);
    lemma_after_first(c.wire(), others, rest);
    law_write_then_read(c, others + rest);
    lemma_wire_is_not_empty(c);
}

/// It does not matter in which pieces a stream arrives: what was read of the
/// first piece, and then of what was left of it and the second piece, is what
/// is read of both together.
pub proof fn law_pieces_do_not_matter(first: Seq<u8>, second: Seq<u8>)
    ensures
        ({
            let (before, left) = commands(first);
            let (after, rest) = commands(left + second);
            commands(first + second) == (before + after, rest)
        }),
    decreases first.len(),
{
    reveal_with_fuel(commands, 1);
    let (before, left) = commands(first);
    match decode(first) {
        DecodedView::Complete(c, n) => {
            law_read_then_write(first);
            law_decided_once(first, second);
            lemma_wire_is_not_empty(c);
            assert((first + second).skip(n as int) =~= first.skip(n as int) + second);
            law_pieces_do_not_matter(first.skip(n as int), second);
            let (b, l) = commands(first.skip(n as int));
            let (a, _) = commands(l + second);
            assert(seq![c] + (b + a) =~= (seq![c] + b) + a);
        },
        _ => {
            let (after, _) = commands(first + second);
            assert(before + after =~= after);
        },
    }
}

/// A stream is refused for its version unless that is zero or 1.1.1, and then
/// for its command code unless that is one of the four that a client may send;
/// until both have arrived, just they are asked for.
pub proof fn law_which_streams_are_refused(s: Seq<u8>)
    ensures
        s.len() < 2 ==> decode(s) == DecodedView::Incomplete(2),
        s.len() >= 2 && be16_at(s, 0) != 0 && be16_at(s, 0) != 0x0111 ==> decode(s)
            == DecodedView::Invalid(ProtocolError::UnknownVersion(be16_at(s, 0))),
        s.len() >= 2 && s.len() < 4 && (be16_at(s, 0) == 0 || be16_at(s, 0) == 0x0111) ==> decode(s)
            == DecodedView::Incomplete(4),
        s.len() >= 4 && (be16_at(s, 0) == 0 || be16_at(s, 0) == 0x0111) && be16_at(s, 2) != 0x8005
            && be16_at(s, 2) != 0x8003 && be16_at(s, 2) != 1 && be16_at(s, 2) != 2 ==> decode(s)
            == DecodedView::Invalid(ProtocolError::UnknownCommand(be16_at(s, 2))),
{
}

/// Whether a stream starts with a command code after a version that is taken.
pub open spec fn starts_with(s: Seq<u8>, code: u16) -> bool {
    s.len() >= 4 && (be16_at(s, 0) == 0 || be16_at(s, 0) == 0x0111) && be16_at(s, 2) == code
}

/// A request for the device list, or for an import, is read once it is whole,
/// and refused for a status other than zero.
pub proof fn law_requests_are_read(s: Seq<u8>)
    ensures
        starts_with(s, 0x8005) && s.len() < 8 ==> decode(s) == DecodedView::Incomplete(8),
        starts_with(s, 0x8005) && s.len() >= 8 && be32_at(s, 4) != 0 ==> decode(s)
            == DecodedView::Invalid(ProtocolError::DevlistStatus(be32_at(s, 4))),
        starts_with(s, 0x8005) && s.len() >= 8 && be32_at(s, 4) == 0 ==> decode(s)
            == DecodedView::Complete((CommandView::Devlist { status: 0 }), 8),
        starts_with(s, 0x8003) && s.len() < 8 ==> decode(s) == DecodedView::Incomplete(8),
        starts_with(s, 0x8003) && s.len() >= 8 && be32_at(s, 4) != 0 ==> decode(s)
            == DecodedView::Invalid(ProtocolError::ImportStatus(be32_at(s, 4))),
        starts_with(s, 0x8003) && 8 <= s.len() < 40 && be32_at(s, 4) == 0 ==> decode(s)
            == DecodedView::Incomplete(40),
        starts_with(s, 0x8003) && s.len() >= 40 && be32_at(s, 4) == 0 ==> decode(s)
            == DecodedView::Complete(
            (CommandView::Import { status: 0, busid: s.subrange(8, 40) }),
            40,
        ),
{
}

/// An URB or an unlink is refused for a direction other than 0 and 1, and then
/// for an endpoint above 15, as soon as its header has arrived.
pub proof fn law_which_headers_are_refused(s: Seq<u8>)
    requires
        starts_with(s, 1) || starts_with(s, 2),
    ensures
        s.len() < 20 ==> decode(s) == DecodedView::Incomplete(20),
        s.len() >= 20 && be32_at(s, 12) > 1 ==> decode(s) == DecodedView::Invalid(
            ProtocolError::InvalidDirection(be32_at(s, 12)),
        ),
        s.len() >= 20 && be32_at(s, 12) <= 1 && be32_at(s, 16) > 15 ==> decode(s)
            == DecodedView::Invalid(ProtocolError::InvalidEndpoint(be32_at(s, 16))),
{
}

/// An unlink takes 48 bytes: its header, and the sequence number at 20.
pub proof fn law_unlinks_are_read(s: Seq<u8>)
    requires
        starts_with(s, 2),
        s.len() >= 20,
        be32_at(s, 12) <= 1,
        be32_at(s, 16) <= 15,
    ensures
        s.len() < 48 ==> decode(s) == DecodedView::Incomplete(48),
        s.len() >= 48 ==> decode(s) == DecodedView::Complete(
            (CommandView::Unlink {
                header: UsbIpHeaderBasic {
                    command: 2,
                    seqnum: be32_at(s, 4),
                    devid: be32_at(s, 8),
                    direction: be32_at(s, 12),
                    ep: be32_at(s, 16),
                },
                unlink_seqnum: be32_at(s, 20),
            }),
            48,
        ),
{
}

/// An URB is refused for a buffer of more than 16 MiB, and then for more than
/// 4096 packets, before anything that follows its numbers has arrived.
pub proof fn law_which_urbs_are_refused(s: Seq<u8>)
    requires
        starts_with(s, 1),
        s.len() >= 20,
        be32_at(s, 12) <= 1,
        be32_at(s, 16) <= 15,
    ensures
        s.len() < 40 ==> decode(s) == DecodedView::Incomplete(40),
        s.len() >= 40 && be32_at(s, 24) > 0x100_0000 ==> decode(s) == DecodedView::Invalid(
            ProtocolError::TransferBufferTooLong(be32_at(s, 24)),
        ),
        s.len() >= 40 && be32_at(s, 24) <= 0x100_0000 && be32_at(s, 32) > 4096 && be32_at(s, 32)
            != 0xffff_ffff ==> decode(s) == DecodedView::Invalid(
            ProtocolError::TooManyPackets(be32_at(s, 32)),
        ),
{
}

/// How many bytes an URB takes: 48, its data if it writes, and 16 for each
/// packet, of which there are none if the number is zero or all ones.
pub open spec fn urb_length(writes: bool, transfer_buffer_length: u32, packets: u32) -> nat {
    48 + (if writes {
        transfer_buffer_length as nat
    } else {
        0
    }) + (if packets == 0xffff_ffff {
        0
    } else {
        16 * packets as nat
    })
}

/// An URB within the limits is read once it is whole, each field from its
/// place, the data from 48 on and the packet descriptors after them.
pub proof fn law_urbs_are_read(s: Seq<u8>)
    requires
        starts_with(s, 1),
        s.len() >= 40,
        be32_at(s, 12) <= 1,
        be32_at(s, 16) <= 15,
        be32_at(s, 24) <= 0x100_0000,
        be32_at(s, 32) <= 4096 || be32_at(s, 32) == 0xffff_ffff,
    ensures
        ({
            let n = urb_length(be32_at(s, 12) == 0, be32_at(s, 24), be32_at(s, 32));
            if s.len() < n {
                decode(s) == DecodedView::Incomplete(n)
            } else {
                &&& decode(s) is Complete
                &&& decode(s)->Complete_1 == n
                &&& decode(s)->Complete_0 is Submit
                &&& {
                    let c = decode(s)->Complete_0->Submit_0;
                    &&& c.header.command == 1
                    &&& c.header.seqnum == be32_at(s, 4)
                    &&& c.header.devid == be32_at(s, 8)
                    &&& c.header.direction == be32_at(s, 12)
                    &&& c.header.ep == be32_at(s, 16)
                    &&& c.transfer_flags == be32_at(s, 20)
                    &&& c.transfer_buffer_length == be32_at(s, 24)
                    &&& c.start_frame == be32_at(s, 28)
                    &&& c.number_of_packets == be32_at(s, 32)
                    &&& c.interval == be32_at(s, 36)
                    &&& c.setup == s.subrange(40, 48)
                    &&& c.data.len() == (if be32_at(s, 12) == 0 {
                        be32_at(s, 24) as nat
                    } else {
                        0
                    })
                    &&& c.data + c.iso_packet_descriptor == s.subrange(48, n as int)
                }
            }
        }),
{
    let n = urb_length(be32_at(s, 12) == 0, be32_at(s, 24), be32_at(s, 32));
    if s.len() >= n {
        let c = decode(s)->Complete_0->Submit_0;
        assert(c.data + c.iso_packet_descriptor =~= s.subrange(48, n as int));
    }
}

/// What was made of a stream is taken for what it is.
pub proof fn law_decoded_models(d: Decoded)
    ensures
        d matches Decoded::Incomplete(n) ==> d@ == DecodedView::Incomplete(n as nat),
        d matches Decoded::Invalid(e) ==> d@ == DecodedView::Invalid(e),
        d matches Decoded::Complete(c, n) ==> d@ == DecodedView::Complete(c@, n as nat),
{
}

} // verus!
