//! Transfers to physical devices: what is asked of libusb, what its answers
//! mean, and when a transfer has to be cancelled.

use vstd::prelude::*;

use crate::device::{
    setup_of, SetupPacket, UsbEndpoint, ENDPOINT_BULK, ENDPOINT_CONTROL, ENDPOINT_INTERRUPT,
};
use crate::error::ErrorKind;
use crate::wire::{copy_range, le16, lemma_le16_read_back, put_bytes, put_le16, put_zeros, zeros};

verus! {

pub const ECONNRESET: i32 = 104;

pub const EIO: i32 = 5;

pub const ENOENT: i32 = 2;

pub const EPIPE: i32 = 32;

pub const EOVERFLOW: i32 = 75;

pub const ETIMEDOUT: i32 = 110;

pub const EINVAL: i32 = 22;

pub const ENOMEM: i32 = 12;

pub const EBUSY: i32 = 16;

pub const EACCES: i32 = 13;

pub const EINTR: i32 = 4;

/// The status of an URB whose device is gone.
pub const ENODEV_ERRNO: i32 = -19;

/// URB flag: a short read is an error.
pub const USBIP_URB_SHORT_NOT_OK: u32 = 0x0001;

/// URB flag: a write ends with a zero-length packet.
pub const USBIP_URB_ZERO_PACKET: u32 = 0x0040;

pub const LIBUSB_TRANSFER_COMPLETED: i32 = 0;

pub const LIBUSB_TRANSFER_TIMED_OUT: i32 = 2;

pub const LIBUSB_TRANSFER_CANCELLED: i32 = 3;

pub const LIBUSB_TRANSFER_STALL: i32 = 4;

pub const LIBUSB_TRANSFER_NO_DEVICE: i32 = 5;

pub const LIBUSB_TRANSFER_OVERFLOW: i32 = 6;

pub const LIBUSB_ERROR_IO: i32 = -1;

pub const LIBUSB_ERROR_INVALID_PARAM: i32 = -2;

pub const LIBUSB_ERROR_ACCESS: i32 = -3;

pub const LIBUSB_ERROR_NO_DEVICE: i32 = -4;

pub const LIBUSB_ERROR_NOT_FOUND: i32 = -5;

pub const LIBUSB_ERROR_BUSY: i32 = -6;

pub const LIBUSB_ERROR_TIMEOUT: i32 = -7;

pub const LIBUSB_ERROR_OVERFLOW: i32 = -8;

pub const LIBUSB_ERROR_PIPE: i32 = -9;

pub const LIBUSB_ERROR_INTERRUPTED: i32 = -10;

pub const LIBUSB_ERROR_NO_MEM: i32 = -11;

/// Size of the setup packet in front of the data of a control transfer.
pub const LIBUSB_CONTROL_SETUP_SIZE: usize = 8;

pub const LIBUSB_TRANSFER_SHORT_NOT_OK: u8 = 1;

pub const LIBUSB_TRANSFER_ADD_ZERO_PACKET: u8 = 8;

/// The Linux status of an URB that libusb completed with `status`.
pub open spec fn transfer_errno(status: i32) -> int {
    if status == LIBUSB_TRANSFER_COMPLETED {
        0
    } else if status == LIBUSB_TRANSFER_TIMED_OUT {
        -ETIMEDOUT
    } else if status == LIBUSB_TRANSFER_CANCELLED {
        -ECONNRESET
    } else if status == LIBUSB_TRANSFER_STALL {
        -EPIPE
    } else if status == LIBUSB_TRANSFER_NO_DEVICE {
        ENODEV_ERRNO as int
    } else if status == LIBUSB_TRANSFER_OVERFLOW {
        -EOVERFLOW
    } else {
        -EIO
    }
}

pub fn transfer_status_to_errno(status: i32) -> (errno: i32)
    ensures
        errno == transfer_errno(status),
{
    if status == LIBUSB_TRANSFER_COMPLETED {
        0
    } else if status == LIBUSB_TRANSFER_TIMED_OUT {
        -ETIMEDOUT
    } else if status == LIBUSB_TRANSFER_CANCELLED {
        -ECONNRESET
    } else if status == LIBUSB_TRANSFER_STALL {
        -EPIPE
    } else if status == LIBUSB_TRANSFER_NO_DEVICE {
        ENODEV_ERRNO
    } else if status == LIBUSB_TRANSFER_OVERFLOW {
        -EOVERFLOW
    } else {
        -EIO
    }
}

/// The Linux status of an URB that libusb refused with `error`.
pub open spec fn libusb_errno(error: i32) -> int {
    if error == LIBUSB_ERROR_INVALID_PARAM {
        -EINVAL
    } else if error == LIBUSB_ERROR_ACCESS {
        -EACCES
    } else if error == LIBUSB_ERROR_NO_DEVICE {
        ENODEV_ERRNO as int
    } else if error == LIBUSB_ERROR_NOT_FOUND {
        -ENOENT
    } else if error == LIBUSB_ERROR_BUSY {
        -EBUSY
    } else if error == LIBUSB_ERROR_TIMEOUT {
        -ETIMEDOUT
    } else if error == LIBUSB_ERROR_OVERFLOW {
        -EOVERFLOW
    } else if error == LIBUSB_ERROR_PIPE {
        -EPIPE
    } else if error == LIBUSB_ERROR_INTERRUPTED {
        -EINTR
    } else if error == LIBUSB_ERROR_NO_MEM {
        -ENOMEM
    } else {
        -EIO
    }
}

pub fn libusb_error_to_errno(error: i32) -> (errno: i32)
    ensures
        errno == libusb_errno(error),
{
    if error == LIBUSB_ERROR_IO {
        -EIO
    } else if error == LIBUSB_ERROR_INVALID_PARAM {
        -EINVAL
    } else if error == LIBUSB_ERROR_ACCESS {
        -EACCES
    } else if error == LIBUSB_ERROR_NO_DEVICE {
        ENODEV_ERRNO
    } else if error == LIBUSB_ERROR_NOT_FOUND {
        -ENOENT
    } else if error == LIBUSB_ERROR_BUSY {
        -EBUSY
    } else if error == LIBUSB_ERROR_TIMEOUT {
        -ETIMEDOUT
    } else if error == LIBUSB_ERROR_OVERFLOW {
        -EOVERFLOW
    } else if error == LIBUSB_ERROR_PIPE {
        -EPIPE
    } else if error == LIBUSB_ERROR_INTERRUPTED {
        -EINTR
    } else if error == LIBUSB_ERROR_NO_MEM {
        -ENOMEM
    } else {
        -EIO
    }
}

/// An URB that libusb refuses never succeeds, and one that it completes
/// succeeds only if it was completed as such.
pub proof fn law_errors_are_negative(code: i32)
    ensures
        libusb_errno(code) < 0,
        transfer_errno(code) <= 0,
        transfer_errno(code) == 0 <==> code == LIBUSB_TRANSFER_COMPLETED,
{
}

/// What became of a transfer.
#[derive(Debug)]
pub struct TransferCompletion {
    pub status: i32,
    pub actual_length: u32,
    pub data: Vec<u8>,
}

/// What a [`TransferCompletion`] says.
#[verifier::ext_equal]
pub struct CompletionView {
    pub status: i32,
    pub actual_length: u32,
    pub data: Seq<u8>,
}

impl View for TransferCompletion {
    type V = CompletionView;

    open spec fn view(&self) -> CompletionView {
        CompletionView {
            status: self.status,
            actual_length: self.actual_length,
            data: self.data@,
        }
    }
}

impl TransferCompletion {
    /// What is reported of a transfer that libusb did not take.
    pub fn refused(error: i32) -> (r: Self)
        ensures
            r@.status == libusb_errno(error),
            r@.actual_length == 0,
            r@.data == Seq::<u8>::empty(),
    {
        TransferCompletion {
            status: libusb_error_to_errno(error),
            actual_length: 0,
            data: Vec::new(),
        }
    }
}

/// The kinds of transfers that can be asked of libusb.
#[derive(Clone, Copy, Debug, PartialEq, Eq, Structural)]
pub enum TransferKind {
    Control,
    Bulk,
    Interrupt,
}

/// What is asked of libusb for an URB.
#[derive(Debug)]
pub struct TransferPlan {
    pub kind: TransferKind,
    /// The address of the endpoint.
    pub address: u8,
    /// What is sent, or room for what is received.
    pub buffer: Vec<u8>,
    /// Where the data begin in the buffer.
    pub data_offset: usize,
    pub direction_in: bool,
    /// The flags of libusb.
    pub flags: u8,
}

/// What a [`TransferPlan`] says.
#[verifier::ext_equal]
pub struct PlanView {
    pub kind: TransferKind,
    pub address: u8,
    pub buffer: Seq<u8>,
    pub data_offset: nat,
    pub direction_in: bool,
    pub flags: int,
}

impl View for TransferPlan {
    type V = PlanView;

    open spec fn view(&self) -> PlanView {
        PlanView {
            kind: self.kind,
            address: self.address,
            buffer: self.buffer@,
            data_offset: self.data_offset as nat,
            direction_in: self.direction_in,
            flags: self.flags as int,
        }
    }
}

/// The kind of transfer for an endpoint; none for isochronous ones.
pub open spec fn kind_of(attributes: u8) -> Option<TransferKind> {
    if attributes == ENDPOINT_CONTROL {
        Some(TransferKind::Control)
    } else if attributes == ENDPOINT_BULK {
        Some(TransferKind::Bulk)
    } else if attributes == ENDPOINT_INTERRUPT {
        Some(TransferKind::Interrupt)
    } else {
        None
    }
}

/// Whether an endpoint sends to the host.
pub open spec fn is_in(address: u8) -> bool {
    address & 0x80 != 0
}

/// The data part of the buffer of a transfer: room for what comes in, or what
/// goes out.
pub open spec fn payload(address: u8, transfer_buffer_length: u32, data: Seq<u8>) -> Seq<u8> {
    if is_in(address) {
        zeros(transfer_buffer_length as nat)
    } else {
        data
    }
}

/// The setup packet in front of the data of a control transfer. Its length
/// is that of the data, modulo 2^16.
pub open spec fn control_setup(setup: SetupPacket, length: nat) -> Seq<u8> {
    seq![setup.request_type, setup.request] + le16(setup.value) + le16(setup.index) + le16(
        (length % 0x1_0000) as u16,
    )
}

/// The flags of libusb for the flags of an URB.
pub open spec fn libusb_flags(transfer_flags: u32, direction_in: bool) -> int {
    (if transfer_flags & USBIP_URB_SHORT_NOT_OK != 0 {
        LIBUSB_TRANSFER_SHORT_NOT_OK as int
    } else {
        0
    }) + (if transfer_flags & USBIP_URB_ZERO_PACKET != 0 && !direction_in {
        LIBUSB_TRANSFER_ADD_ZERO_PACKET as int
    } else {
        0
    })
}

/// What is asked of libusb for an URB on an endpoint, if it can be asked.
pub open spec fn plan(
    endpoint: UsbEndpoint,
    transfer_flags: u32,
    transfer_buffer_length: u32,
    setup: SetupPacket,
    data: Seq<u8>,
) -> Option<PlanView> {
    let direction_in = is_in(endpoint.address);
    let body = payload(endpoint.address, transfer_buffer_length, data);
    match kind_of(endpoint.attributes) {
        None => None,
        Some(kind) => Some(
            PlanView {
                kind,
                address: endpoint.address,
                buffer: if kind == TransferKind::Control {
                    control_setup(setup, body.len()) + body
                } else {
                    body
                },
                data_offset: if kind == TransferKind::Control {
                    LIBUSB_CONTROL_SETUP_SIZE as nat
                } else {
                    0
                },
                direction_in,
                flags: libusb_flags(transfer_flags, direction_in),
            },
        ),
    }
}

/// What became of a transfer once libusb calls back: how much of the data part
/// of the buffer counts, and what it holds if it came in.
pub open spec fn completion(
    buffer: Seq<u8>,
    data_offset: nat,
    direction_in: bool,
    transfer_status: i32,
    actual_length: i32,
) -> CompletionView {
    let room = buffer.len() - data_offset;
    let moved = if actual_length < 0 {
        0
    } else {
        actual_length as int
    };
    let length = if moved < room {
        moved
    } else {
        room
    };
    CompletionView {
        status: transfer_errno(transfer_status) as i32,
        actual_length: length as u32,
        data: if direction_in {
            buffer.subrange(data_offset as int, data_offset + length)
        } else {
            seq![]
        },
    }
}

impl TransferPlan {
    /// What is asked of libusb for an URB on an endpoint. Isochronous
    /// endpoints are not supported.
    pub fn new(
        endpoint: UsbEndpoint,
        transfer_flags: u32,
        transfer_buffer_length: u32,
        setup: SetupPacket,
        data: &[u8],
    ) -> (r: Result<TransferPlan, ErrorKind>)
        requires
            transfer_buffer_length + LIBUSB_CONTROL_SETUP_SIZE <= usize::MAX,
            data@.len() + LIBUSB_CONTROL_SETUP_SIZE <= usize::MAX,
        ensures
            match plan(endpoint, transfer_flags, transfer_buffer_length, setup, data@) {
                Some(p) => r is Ok && r->Ok_0@ == p,
                None => r == Err::<TransferPlan, ErrorKind>(ErrorKind::Unsupported),
            },
    {
        let direction_in: bool = endpoint.address & 0x80 != 0;
        let kind = if endpoint.attributes == ENDPOINT_CONTROL {
            TransferKind::Control
        } else if endpoint.attributes == ENDPOINT_BULK {
            TransferKind::Bulk
        } else if endpoint.attributes == ENDPOINT_INTERRUPT {
            TransferKind::Interrupt
        } else {
            return Err(ErrorKind::Unsupported);
        };
        let data_length: usize = if direction_in {
            transfer_buffer_length as usize
        } else {
            data.len()
        };
        let data_offset: usize = if kind == TransferKind::Control {
            LIBUSB_CONTROL_SETUP_SIZE
        } else {
            0
        };
        let ghost body = payload(endpoint.address, transfer_buffer_length, data@);
        let mut buffer: Vec<u8> = Vec::new();
        if kind == TransferKind::Control {
            buffer.push(setup.request_type);
            buffer.push(setup.request);
            put_le16(&mut buffer, setup.value);
            put_le16(&mut buffer, setup.index);
            put_le16(&mut buffer, (data_length % 0x1_0000) as u16);
            assert(buffer@ =~= control_setup(setup, body.len()));
        }
        if direction_in {
            put_zeros(&mut buffer, data_length);
        } else {
            put_bytes(&mut buffer, data);
        }
        let mut flags: u8 = 0;
        if transfer_flags & USBIP_URB_SHORT_NOT_OK != 0 {
            flags = LIBUSB_TRANSFER_SHORT_NOT_OK;
        }
        if transfer_flags & USBIP_URB_ZERO_PACKET != 0 && !direction_in {
            flags = flags + LIBUSB_TRANSFER_ADD_ZERO_PACKET;
        }
        let r = TransferPlan {
            kind,
            address: endpoint.address,
            buffer,
            data_offset,
            direction_in,
            flags,
        };
        assert(r@ =~= plan(
            endpoint,
            transfer_flags,
            transfer_buffer_length,
            setup,
            data@,
        )->0);
        Ok(r)
    }

    /// What became of this transfer, whose buffer libusb may have filled.
    pub fn finish(&self, transfer_status: i32, actual_length: i32) -> (r: TransferCompletion)
        requires
            self.data_offset <= self.buffer@.len(),
        ensures
            r@ == completion(
                self@.buffer,
                self@.data_offset,
                self@.direction_in,
                transfer_status,
                actual_length,
            ),
    {
        let room: usize = self.buffer.len() - self.data_offset;
        let moved: u32 = if actual_length < 0 {
            0
        } else {
            actual_length as u32
        };
        let length: u32 = if room <= 0x7fff_ffff && room as u32 <= moved {
            room as u32
        } else {
            moved
        };
        let data = if self.direction_in {
            copy_range(
                self.buffer.as_slice(),
                self.data_offset,
                self.data_offset + length as usize,
            )
        } else {
            Vec::new()
        };
        let r = TransferCompletion {
            status: transfer_status_to_errno(transfer_status),
            actual_length: length,
            data,
        };
        assert(r@ =~= completion(
            self@.buffer,
            self@.data_offset,
            self@.direction_in,
            transfer_status,
            actual_length,
        ));
        r
    }
}

/// What a transfer reports never exceeds the URB: as many bytes as came in, at
/// most the length that the client gave, and no data at all of a write.
pub proof fn law_completion_fits_the_urb(
    endpoint: UsbEndpoint,
    transfer_flags: u32,
    transfer_buffer_length: u32,
    setup: SetupPacket,
    data: Seq<u8>,
    filled: Seq<u8>,
    transfer_status: i32,
    actual_length: i32,
)
    requires
        plan(endpoint, transfer_flags, transfer_buffer_length, setup, data) is Some,
        ({
            let p = plan(endpoint, transfer_flags, transfer_buffer_length, setup, data)->0;
            filled.len() == p.buffer.len()
        }),
    ensures
        ({
            let p = plan(endpoint, transfer_flags, transfer_buffer_length, setup, data)->0;
            let c = completion(
                filled,
                p.data_offset,
                p.direction_in,
                transfer_status,
                actual_length,
            );
            &&& p.data_offset <= p.buffer.len()
            &&& p.buffer.skip(p.data_offset as int) == payload(
                endpoint.address,
                transfer_buffer_length,
                data,
            )
            &&& p.direction_in ==> c.actual_length <= transfer_buffer_length && c.data.len()
                == c.actual_length
            &&& !p.direction_in ==> c.actual_length <= data.len() && c.data.len() == 0
            &&& actual_length <= 0 ==> c.actual_length == 0
        }),
{
    let p = plan(endpoint, transfer_flags, transfer_buffer_length, setup, data)->0;
    let body = payload(endpoint.address, transfer_buffer_length, data);
    assert(control_setup(setup, body.len()).len() == 8);
    assert(p.buffer.skip(p.data_offset as int) =~= body);
}

/// What may be in flight for an URB, and whether it is to be cancelled. A
/// transfer goes by a number that no other one has while it is allocated.
#[derive(Debug)]
pub struct TransferCancellation {
    transfer: Option<usize>,
    submitted: bool,
    cancel_requested: bool,
}

/// What a [`TransferCancellation`] holds.
pub struct CancellationView {
    /// The transfer that is allocated for the URB.
    pub transfer: Option<usize>,
    /// Whether libusb has taken it.
    pub submitted: bool,
    /// Whether the URB was cancelled.
    pub cancel_requested: bool,
}

impl View for TransferCancellation {
    type V = CancellationView;

    closed spec fn view(&self) -> CancellationView {
        CancellationView {
            transfer: self.transfer,
            submitted: self.submitted,
            cancel_requested: self.cancel_requested,
        }
    }
}

impl CancellationView {
    /// The URB is cancelled. What comes back has to be cancelled now.
    pub open spec fn cancel(self) -> (CancellationView, Option<usize>) {
        (
            CancellationView { cancel_requested: true, ..self },
            if self.submitted {
                self.transfer
            } else {
                None
            },
        )
    }

    /// A transfer was allocated for the URB.
    pub open spec fn attach(self, transfer: usize) -> CancellationView {
        CancellationView { transfer: Some(transfer), submitted: false, ..self }
    }

    /// libusb has taken a transfer. Whether it has to be cancelled now.
    pub open spec fn mark_submitted(self, transfer: usize) -> (CancellationView, bool) {
        if self.transfer == Some(transfer) {
            (CancellationView { submitted: true, ..self }, self.cancel_requested)
        } else {
            (self, false)
        }
    }

    /// A transfer is about to be freed.
    pub open spec fn detach(self, transfer: usize) -> CancellationView {
        if self.transfer == Some(transfer) {
            CancellationView { transfer: None, submitted: false, ..self }
        } else {
            self
        }
    }
}

/// An URB that was not cancelled and has no transfer.
pub open spec fn uncancelled() -> CancellationView {
    CancellationView { transfer: None, submitted: false, cancel_requested: false }
}

impl Default for TransferCancellation {
    fn default() -> (r: Self)
        ensures
            r@ == uncancelled(),
    {
        TransferCancellation { transfer: None, submitted: false, cancel_requested: false }
    }
}

impl TransferCancellation {
    /// Cancels the URB. The transfer that comes back, if any, has to be
    /// cancelled before anything else happens to it.
    pub fn cancel(&mut self) -> (r: Option<usize>)
        ensures
            (final(self)@, r) == old(self)@.cancel(),
    {
        self.cancel_requested = true;
        if self.submitted {
            self.transfer
        } else {
            None
        }
    }

    pub fn is_cancelled(&self) -> (r: bool)
        ensures
            r == self@.cancel_requested,
    {
        self.cancel_requested
    }

    /// Takes note of the transfer that was allocated for the URB.
    pub fn attach(&mut self, transfer: usize)
        ensures
            final(self)@ == old(self)@.attach(transfer),
    {
        self.transfer = Some(transfer);
        self.submitted = false;
    }

    /// Takes note that libusb has taken a transfer. Says whether it has to be
    /// cancelled at once.
    pub fn mark_submitted(&mut self, transfer: usize) -> (r: bool)
        ensures
            (final(self)@, r) == old(self)@.mark_submitted(transfer),
    {
        if self.holds(transfer) {
            self.submitted = true;
            self.cancel_requested
        } else {
            false
        }
    }

    /// Takes note that a transfer is about to be freed.
    pub fn detach(&mut self, transfer: usize)
        ensures
            final(self)@ == old(self)@.detach(transfer),
    {
        if self.holds(transfer) {
            self.transfer = None;
            self.submitted = false;
        }
    }

    fn holds(&self, transfer: usize) -> (r: bool)
        ensures
            r == (self@.transfer == Some(transfer)),
    {
        match self.transfer {
            Some(t) => t == transfer,
            None => false,
        }
    }
}

/// A cancellation reaches the transfer of an URB whether it comes before the
/// transfer is allocated, between that and its submission, or after it.
pub proof fn law_cancellation_is_never_lost(c: CancellationView, transfer: usize)
    ensures
        // before
        c.cancel().0.attach(transfer).mark_submitted(transfer).1,
        // between
        c.attach(transfer).cancel().0.mark_submitted(transfer).1,
        // after
        c.attach(transfer).mark_submitted(transfer).0.cancel().1 == Some(transfer),
        // and it stays requested
        c.cancel().0.attach(transfer).cancel_requested,
        c.cancel().0.detach(transfer).cancel_requested,
        c.cancel().0.mark_submitted(transfer).0.cancel_requested,
{
}

/// A transfer that is not attached any more is never cancelled, so one that is
/// about to be freed is safe once it is detached.
pub proof fn law_no_cancellation_after_detach(c: CancellationView, transfer: usize)
    ensures
        c.detach(transfer).cancel().1 != Some(transfer),
        !c.detach(transfer).mark_submitted(transfer).1,
        !c.cancel().0.detach(transfer).mark_submitted(transfer).1,
{
}

/// An URB that was not cancelled is not cancelled by libusb.
pub proof fn law_no_cancellation_unasked(c: CancellationView, transfer: usize)
    requires
        !c.cancel_requested,
    ensures
        !c.mark_submitted(transfer).1,
        !c.attach(transfer).cancel_requested,
        !c.mark_submitted(transfer).0.cancel_requested,
        !c.detach(transfer).cancel_requested,
{
}

/// A control transfer carries the setup packet of the client, with the length
/// of its data.
pub proof fn law_setup_is_kept(setup: SetupPacket, length: nat)
    requires
        length <= 0xffff,
    ensures
        setup_of(control_setup(setup, length)) == (SetupPacket { length: length as u16, ..setup }),
{
    let s = control_setup(setup, length);
    assert(s.len() == 8);
    lemma_le16_read_back(s, 2, setup.value);
    lemma_le16_read_back(s, 4, setup.index);
    lemma_le16_read_back(s, 6, length as u16);
}

/// What libusb reports of a transfer, as Linux statuses; anything else is an
/// I/O error.
pub proof fn law_transfer_statuses(status: i32)
    ensures
        status == 0 ==> transfer_errno(status) == 0,
        status == 2 ==> transfer_errno(status) == -110,
        status == 3 ==> transfer_errno(status) == -104,
        status == 4 ==> transfer_errno(status) == -32,
        status == 5 ==> transfer_errno(status) == -19,
        status == 6 ==> transfer_errno(status) == -75,
        status < 0 || status == 1 || status > 6 ==> transfer_errno(status) == -5,
{
}

/// The errors of libusb as Linux statuses; anything else is an I/O error.
pub proof fn law_libusb_errors(error: i32)
    ensures
        error == -2 ==> libusb_errno(error) == -22,
        error == -3 ==> libusb_errno(error) == -13,
        error == -4 ==> libusb_errno(error) == -19,
        error == -5 ==> libusb_errno(error) == -2,
        error == -6 ==> libusb_errno(error) == -16,
        error == -7 ==> libusb_errno(error) == -110,
        error == -8 ==> libusb_errno(error) == -75,
        error == -9 ==> libusb_errno(error) == -32,
        error == -10 ==> libusb_errno(error) == -4,
        error == -11 ==> libusb_errno(error) == -12,
        error > -2 || error < -11 ==> libusb_errno(error) == -5,
{
}

/// A transfer reports exactly what libusb moved, no less, and all of the data
/// that came in.
pub proof fn law_completion_reports_what_was_moved(
    buffer: Seq<u8>,
    data_offset: nat,
    direction_in: bool,
    transfer_status: i32,
    actual_length: i32,
    i: int,
)
    requires
        0 <= actual_length,
        data_offset + actual_length <= buffer.len(),
    ensures
        ({
            let c = completion(
                buffer,
                data_offset,
                direction_in,
                transfer_status,
                actual_length,
            );
            &&& c.status == transfer_errno(transfer_status)
            &&& c.actual_length == actual_length
            &&& direction_in ==> c.data.len() == actual_length
            &&& direction_in && 0 <= i < actual_length ==> c.data[i] == buffer[data_offset + i]
            &&& !direction_in ==> c.data.len() == 0
        }),
{
}

/// More than there is room for counts as all that there is room for, and less
/// than nothing as nothing; the status is that of libusb all the same.
pub proof fn law_completion_is_within_the_buffer(
    buffer: Seq<u8>,
    data_offset: nat,
    direction_in: bool,
    transfer_status: i32,
    actual_length: i32,
)
    requires
        data_offset <= buffer.len(),
        actual_length < 0 || data_offset + actual_length > buffer.len(),
    ensures
        ({
            let c = completion(
                buffer,
                data_offset,
                direction_in,
                transfer_status,
                actual_length,
            );
            &&& c.status == transfer_errno(transfer_status)
            &&& actual_length < 0 ==> c.actual_length == 0 && c.data.len() == 0
            &&& actual_length >= 0 ==> c.actual_length == buffer.len() - data_offset
            &&& actual_length >= 0 && direction_in ==> c.data == buffer.skip(data_offset as int)
            &&& !direction_in ==> c.data.len() == 0
        }),
{
    if actual_length >= 0 && direction_in {
        assert(buffer.subrange(data_offset as int, buffer.len() as int) =~= buffer.skip(
            data_offset as int,
        ));
    }
}

/// An endpoint sends to the host if the highest bit of its address is set.
pub proof fn law_direction_of_an_endpoint(address: u8)
    ensures
        is_in(address) <==> address >= 128,
{
    assert(address & 0x80 != 0 <==> address >= 128) by (bit_vector);
}

/// Control, bulk and interrupt endpoints have a kind of transfer each, and no
/// other endpoint has one.
pub proof fn law_kinds_of_transfers(attributes: u8)
    ensures
        attributes == 0 ==> kind_of(attributes) == Some(TransferKind::Control),
        attributes == 2 ==> kind_of(attributes) == Some(TransferKind::Bulk),
        attributes == 3 ==> kind_of(attributes) == Some(TransferKind::Interrupt),
        attributes == 1 || attributes > 3 ==> kind_of(attributes) is None,
{
}

/// A short read is an error for libusb if bit 0 of the URB flags is set, and a
/// write ends with an empty packet if bit 6 is; nothing else is asked.
pub proof fn law_flags_are_passed_on(transfer_flags: u32, direction_in: bool)
    ensures
        libusb_flags(transfer_flags, direction_in) == (if transfer_flags % 2 == 1 {
            1int
        } else {
            0
        }) + (if transfer_flags / 64 % 2 == 1 && !direction_in {
            8int
        } else {
            0
        }),
{
    assert(transfer_flags & 0x0001 != 0 <==> transfer_flags % 2 == 1) by (bit_vector);
    assert(transfer_flags & 0x0040 != 0 <==> transfer_flags / 64 % 2 == 1) by (bit_vector);
}

/// A transfer is planned for every endpoint but isochronous ones. It goes to
/// the endpoint, in its direction. A read has room for as many bytes as the
/// client asked for, all zero, and a write sends the data of the client. A
/// control transfer has the setup packet of the client in front of that, with
/// the number of those bytes as its length; other transfers have nothing.
pub proof fn law_plan_does_what_the_urb_asks(
    endpoint: UsbEndpoint,
    transfer_flags: u32,
    transfer_buffer_length: u32,
    setup: SetupPacket,
    data: Seq<u8>,
    i: int,
)
    ensures
        ({
            let planned = plan(endpoint, transfer_flags, transfer_buffer_length, setup, data);
            let p = planned->0;
            let body = p.buffer.skip(p.data_offset as int);
            &&& planned is Some <==> endpoint.attributes == 0 || endpoint.attributes == 2
                || endpoint.attributes == 3
            &&& planned is Some ==> {
                &&& p.address == endpoint.address
                &&& p.direction_in == (endpoint.address >= 128)
                &&& p.kind is Control <==> endpoint.attributes == 0
                &&& p.kind is Bulk <==> endpoint.attributes == 2
                &&& p.kind is Interrupt <==> endpoint.attributes == 3
                &&& p.data_offset == (if endpoint.attributes == 0 {
                    8nat
                } else {
                    0
                })
                &&& p.data_offset <= p.buffer.len()
                &&& endpoint.address >= 128 ==> body.len() == transfer_buffer_length
                &&& endpoint.address >= 128 && 0 <= i < transfer_buffer_length ==> body[i] == 0
                &&& endpoint.address < 128 ==> body == data
                &&& p.flags == libusb_flags(transfer_flags, endpoint.address >= 128)
                &&& endpoint.attributes == 0 ==> {
                    &&& p.buffer[0] == setup.request_type
                    &&& p.buffer[1] == setup.request
                    &&& p.buffer[2] + 0x100 * p.buffer[3] == setup.value
                    &&& p.buffer[4] + 0x100 * p.buffer[5] == setup.index
                    &&& p.buffer[6] + 0x100 * p.buffer[7] == body.len() as int % 0x1_0000
                }
            }
        }),
{
    law_direction_of_an_endpoint(endpoint.address);
    let planned = plan(endpoint, transfer_flags, transfer_buffer_length, setup, data);
    if planned is Some {
        let p = planned->0;
        let whole = payload(endpoint.address, transfer_buffer_length, data);
        let front = control_setup(setup, whole.len());
        assert(front.len() == 8);
        assert(p.buffer.skip(p.data_offset as int) =~= whole);
        if endpoint.attributes == 0 {
            assert(p.buffer == front + whole);
            assert(forall|k: int| 0 <= k < 8 ==> #[trigger] front[k] == p.buffer[k]);
            assert(front[0] == setup.request_type && front[1] == setup.request);
            assert(front[2] == le16(setup.value)[0] && front[3] == le16(setup.value)[1]);
            assert(front[4] == le16(setup.index)[0] && front[5] == le16(setup.index)[1]);
            let length = (whole.len() % 0x1_0000) as u16;
            assert(front[6] == le16(length)[0] && front[7] == le16(length)[1]);
        }
    }
}

/// What each notice changes of an URB: a cancellation only that it is
/// requested, an allocation that this transfer is there and not yet submitted,
/// a submission or an end of that transfer that it is submitted or gone, and
/// those of any other transfer nothing.
pub proof fn law_what_cancellation_notices_change(
    c: CancellationView,
    transfer: usize,
    other: usize,
)
    requires
        transfer != other,
    ensures
        c.cancel().0.transfer == c.transfer,
        c.cancel().0.submitted == c.submitted,
        c.cancel().0.cancel_requested,
        c.submitted ==> c.cancel().1 == c.transfer,
        !c.submitted ==> c.cancel().1 is None,
        c.attach(transfer).transfer == Some(transfer),
        !c.attach(transfer).submitted,
        c.attach(transfer).cancel_requested == c.cancel_requested,
        c.attach(transfer).mark_submitted(transfer).0.transfer == Some(transfer),
        c.attach(transfer).mark_submitted(transfer).0.submitted,
        c.attach(transfer).mark_submitted(transfer).0.cancel_requested == c.cancel_requested,
        c.attach(transfer).mark_submitted(transfer).1 == c.cancel_requested,
        c.attach(transfer).mark_submitted(other).0 == c.attach(transfer),
        !c.attach(transfer).mark_submitted(other).1,
        c.attach(transfer).detach(transfer).transfer is None,
        !c.attach(transfer).detach(transfer).submitted,
        c.attach(transfer).detach(transfer).cancel_requested == c.cancel_requested,
        c.attach(transfer).detach(other) == c.attach(transfer),
        c.transfer is None ==> c.detach(transfer) == c && c.mark_submitted(transfer) == (c, false),
        uncancelled().transfer is None && !uncancelled().submitted
            && !uncancelled().cancel_requested,
{
}

/// The models of a plan and of a completion have what these have, field by
/// field.
pub proof fn law_transfer_models(p: TransferPlan, c: TransferCompletion)
    ensures
        p@.kind == p.kind,
        p@.address == p.address,
        p@.buffer == p.buffer@,
        p@.data_offset == p.data_offset,
        p@.direction_in == p.direction_in,
        p@.flags == p.flags,
        c@.status == c.status,
        c@.actual_length == c.actual_length,
        c@.data == c.data@,
{
}

} // verus!
