//! One URB: from the client's request to the reply.
//!
//! A [`SubmitJob`] says what to do for the URB, is told what came of it, and
//! ends with the reply. URBs for the endpoints of a physical device, except
//! control endpoints, go to libusb; when the device turns out to be gone, it
//! is looked for once and the URB is tried again. All other URBs go to the
//! handler of the device.

use vstd::prelude::*;

use crate::device::{
    law_endpoint_has_address, setup_of, DeviceView, SetupPacket, UsbDevice, UsbEndpoint,
    ENDPOINT_CONTROL,
};
use crate::error::{errno_of, io_error_to_errno, ErrorKind};
use crate::session::{CompletedSubmit, CompletedView};
use crate::transfer::{
    completion, is_in, law_completion_fits_the_urb, plan, CompletionView, PlanView, TransferCompletion, TransferPlan, ENODEV_ERRNO,
    LIBUSB_CONTROL_SETUP_SIZE,
};
use crate::usbip_protocol::{
    ret_submit, CommandView, ResponseView, SubmitView, UsbIpCommand, UsbIpHeaderBasic, UsbIpResponse,
    DIRECTION_IN, DIRECTION_OUT, USBIP_RET_SUBMIT,
};
use crate::wire::{len32, truncate_len};

verus! {

/// The status of an URB for an endpoint that the device does not have.
pub const NO_ENDPOINT: i32 = -2;

/// Milliseconds to wait before the result of an URB is handed over again.
pub const MAX_BACKOFF: u64 = 50;

/// Who an URB goes to.
#[derive(Clone, Copy, Debug)]
pub enum Route {
    /// The device has no such endpoint.
    Missing,
    /// libusb.
    Host(UsbEndpoint),
    /// The handler of the device or of one of its interfaces.
    Handler(UsbEndpoint, Option<usize>),
}

/// What a [`Route`] says.
pub enum RouteView {
    Missing,
    Host(UsbEndpoint),
    Handler(UsbEndpoint, Option<int>),
}

impl View for Route {
    type V = RouteView;

    open spec fn view(&self) -> RouteView {
        match self {
            Route::Missing => RouteView::Missing,
            Route::Host(ep) => RouteView::Host(*ep),
            Route::Handler(ep, None) => RouteView::Handler(*ep, None),
            Route::Handler(ep, Some(i)) => RouteView::Handler(*ep, Some(*i as int)),
        }
    }
}

/// What came of an attempt to transfer an URB with libusb.
#[derive(Debug)]
pub enum Attempt {
    /// The device is not connected.
    NoHandle,
    /// It could not be tried.
    Failed(ErrorKind),
    Completed(TransferCompletion),
}

/// What an [`Attempt`] says.
#[verifier::ext_equal]
pub enum AttemptView {
    NoHandle,
    Failed(ErrorKind),
    Completed(CompletionView),
}

impl View for Attempt {
    type V = AttemptView;

    open spec fn view(&self) -> AttemptView {
        match self {
            Attempt::NoHandle => AttemptView::NoHandle,
            Attempt::Failed(kind) => AttemptView::Failed(*kind),
            Attempt::Completed(c) => AttemptView::Completed(c@),
        }
    }
}

/// What can happen to an URB.
#[derive(Debug)]
pub enum JobEvent {
    Started,
    /// libusb was tried; whether the URB was cancelled meanwhile.
    Transferred(Attempt, bool),
    /// The device was looked for.
    Reconnected,
    /// The handler answered.
    Handled(Vec<u8>),
    /// The handler failed.
    HandlerFailed(ErrorKind),
}

/// What a [`JobEvent`] says.
#[verifier::ext_equal]
pub enum JobEventView {
    Started,
    Transferred(AttemptView, bool),
    Reconnected,
    Handled(Seq<u8>),
    HandlerFailed(ErrorKind),
}

impl View for JobEvent {
    type V = JobEventView;

    open spec fn view(&self) -> JobEventView {
        match self {
            JobEvent::Started => JobEventView::Started,
            JobEvent::Transferred(attempt, cancelled) => JobEventView::Transferred(
                attempt@,
                *cancelled,
            ),
            JobEvent::Reconnected => JobEventView::Reconnected,
            JobEvent::Handled(data) => JobEventView::Handled(data@),
            JobEvent::HandlerFailed(kind) => JobEventView::HandlerFailed(*kind),
        }
    }
}

/// What is to be done for an URB.
#[derive(Debug)]
pub enum JobAction {
    /// Try libusb, if the device is connected, as [`SubmitJob::plan`] says.
    Transfer,
    /// Look for the device.
    Reconnect,
    /// Ask the handler of the device, or of the interface at a position.
    Handle(UsbEndpoint, Option<usize>),
    /// Send the reply.
    Done(CompletedSubmit),
}

/// What a [`JobAction`] says.
#[verifier::ext_equal]
pub enum JobActionView {
    Transfer,
    Reconnect,
    Handle(UsbEndpoint, Option<int>),
    Done(CompletedView),
}

impl View for JobAction {
    type V = JobActionView;

    open spec fn view(&self) -> JobActionView {
        match self {
            JobAction::Transfer => JobActionView::Transfer,
            JobAction::Reconnect => JobActionView::Reconnect,
            JobAction::Handle(ep, None) => JobActionView::Handle(*ep, None),
            JobAction::Handle(ep, Some(i)) => JobActionView::Handle(*ep, Some(*i as int)),
            JobAction::Done(completed) => JobActionView::Done(completed@),
        }
    }
}

/// The state of an URB.
#[verifier::ext_equal]
pub struct JobView {
    /// The header of the reply.
    pub header: UsbIpHeaderBasic,
    pub transfer_flags: u32,
    pub transfer_buffer_length: u32,
    pub setup: SetupPacket,
    pub data: Seq<u8>,
    pub route: RouteView,
    /// What came of the first attempt, once there is a second one.
    pub first: Option<CompletionView>,
}

/// The address of the endpoint that a header names.
pub open spec fn endpoint_address(header: UsbIpHeaderBasic) -> u8 {
    (if header.direction == DIRECTION_OUT {
        header.ep
    } else {
        header.ep | 0x80
    }) as u8
}

/// Who an URB goes to.
pub open spec fn route(device: DeviceView, header: UsbIpHeaderBasic) -> RouteView {
    match device.endpoint(endpoint_address(header)) {
        None => RouteView::Missing,
        Some((ep, intf)) => if device.host_runtime is Some && ep.attributes != ENDPOINT_CONTROL {
            RouteView::Host(ep)
        } else {
            RouteView::Handler(ep, intf)
        },
    }
}

/// An URB that nothing was done for yet.
pub open spec fn new_job(device: DeviceView, c: SubmitView) -> JobView {
    JobView {
        header: UsbIpHeaderBasic { command: USBIP_RET_SUBMIT as u32, ..c.header },
        transfer_flags: c.transfer_flags,
        transfer_buffer_length: c.transfer_buffer_length,
        setup: setup_of(c.setup),
        data: c.data,
        route: route(device, c.header),
        first: None,
    }
}

impl JobView {
    /// The URB is done.
    pub open spec fn done(self, status: i32, actual_length: u32, data: Seq<u8>) -> JobActionView {
        JobActionView::Done(
            CompletedView {
                seqnum: self.header.seqnum,
                status,
                response: ret_submit(self.header, status, actual_length, data),
            },
        )
    }

    /// The URB is done, with what came of an attempt.
    pub open spec fn done_with(self, attempt: AttemptView) -> JobActionView {
        match attempt {
            AttemptView::NoHandle => self.done(
                errno_of(ErrorKind::NotConnected) as i32,
                0,
                seq![],
            ),
            AttemptView::Failed(kind) => self.done(errno_of(kind) as i32, 0, seq![]),
            AttemptView::Completed(c) => self.done(c.status, c.actual_length, c.data),
        }
    }

    /// Whether an attempt calls for a second one.
    pub open spec fn worth_another_try(self, attempt: AttemptView, cancelled: bool) -> bool {
        &&& self.first is None
        &&& attempt is Completed
        &&& attempt->Completed_0.status == ENODEV_ERRNO
        &&& !cancelled
    }
}

/// What becomes of an URB, and what is to be done for it, when `e` happens.
pub open spec fn job_step(j: JobView, e: JobEventView) -> (JobView, JobActionView) {
    match e {
        JobEventView::Started => (
            j,
            match j.route {
                RouteView::Missing => j.done(NO_ENDPOINT, 0, seq![]),
                RouteView::Host(_) => JobActionView::Transfer,
                RouteView::Handler(ep, intf) => JobActionView::Handle(ep, intf),
            },
        ),
        JobEventView::Transferred(attempt, cancelled) => if j.worth_another_try(
            attempt,
            cancelled,
        ) {
            (
                JobView { first: Some(attempt->Completed_0), ..j },
                JobActionView::Reconnect,
            )
        } else if attempt is NoHandle && j.first is Some {
            (j, j.done_with(AttemptView::Completed(j.first->0)))
        } else {
            (j, j.done_with(attempt))
        },
        JobEventView::Reconnected => (j, JobActionView::Transfer),
        JobEventView::Handled(data) => (
            j,
            j.done(
                0,
                if j.header.direction == DIRECTION_OUT {
                    len32(j.data.len())
                } else {
                    len32(data.len())
                },
                data,
            ),
        ),
        JobEventView::HandlerFailed(kind) => (j, j.done(errno_of(kind) as i32, 0, seq![])),
    }
}

/// One URB on its way.
#[derive(Debug)]
pub struct SubmitJob {
    header: UsbIpHeaderBasic,
    transfer_flags: u32,
    transfer_buffer_length: u32,
    setup: SetupPacket,
    data: Vec<u8>,
    route: Route,
    first: Option<TransferCompletion>,
}

impl View for SubmitJob {
    type V = JobView;

    closed spec fn view(&self) -> JobView {
        JobView {
            header: self.header,
            transfer_flags: self.transfer_flags,
            transfer_buffer_length: self.transfer_buffer_length,
            setup: self.setup,
            data: self.data@,
            route: self.route@,
            first: match self.first {
                Some(c) => Some(c@),
                None => None,
            },
        }
    }
}

impl SubmitJob {
    /// An URB for a device.
    pub fn new(device: &UsbDevice, command: UsbIpCommand) -> (r: Option<Self>)
        ensures
            match command@ {
                CommandView::Submit(c) => r is Some && r->0@ == new_job(device@, c),
                _ => r is None,
            },
    {
        match command {
            UsbIpCommand::UsbIpCmdSubmit {
                header,
                transfer_flags,
                transfer_buffer_length,
                setup,
                data,
                ..
            } => {
                let real_ep: u32 = if header.direction == DIRECTION_OUT {
                    header.ep
                } else {
                    header.ep | 0x80
                };
                let address: u8 = #[verifier::truncate]
                (real_ep as u8);
                let route = match device.find_ep(address) {
                    None => Route::Missing,
                    Some((ep, intf)) => {
                        if device.host_runtime.is_some() && ep.attributes != ENDPOINT_CONTROL {
                            Route::Host(ep)
                        } else {
                            Route::Handler(ep, intf)
                        }
                    },
                };
                let mut reply = header;
                reply.command = USBIP_RET_SUBMIT as u32;
                Some(
                    SubmitJob {
                        header: reply,
                        transfer_flags,
                        transfer_buffer_length,
                        setup: SetupPacket::parse(&setup),
                        data,
                        route,
                        first: None,
                    },
                )
            },
            _ => None,
        }
    }

    pub fn transfer_buffer_length(&self) -> (r: u32)
        ensures
            r == self@.transfer_buffer_length,
    {
        self.transfer_buffer_length
    }

    pub fn setup(&self) -> (r: SetupPacket)
        ensures
            r == self@.setup,
    {
        self.setup
    }

    pub fn data(&self) -> (r: &[u8])
        ensures
            r@ == self@.data,
    {
        self.data.as_slice()
    }

    /// The endpoint of the URB, if the device has it.
    pub fn endpoint(&self) -> (r: Option<UsbEndpoint>)
        ensures
            r == (match self@.route {
                RouteView::Missing => None,
                RouteView::Host(ep) => Some(ep),
                RouteView::Handler(ep, _) => Some(ep),
            }),
    {
        match self.route {
            Route::Missing => None,
            Route::Host(ep) => Some(ep),
            Route::Handler(ep, _) => Some(ep),
        }
    }

    /// What is asked of libusb for this URB.
    pub fn plan(&self) -> (r: Result<TransferPlan, ErrorKind>)
        requires
            self@.transfer_buffer_length + LIBUSB_CONTROL_SETUP_SIZE <= usize::MAX,
            self@.data.len() + LIBUSB_CONTROL_SETUP_SIZE <= usize::MAX,
        ensures
            match self@.plan() {
                Some(p) => r is Ok && r->Ok_0@ == p,
                None => r == Err::<TransferPlan, ErrorKind>(ErrorKind::Unsupported),
            },
    {
        match self.route {
            Route::Host(ep) => TransferPlan::new(
                ep,
                self.transfer_flags,
                self.transfer_buffer_length,
                self.setup,
                self.data.as_slice(),
            ),
            _ => Err(ErrorKind::Unsupported),
        }
    }

    /// Takes note of what happened to the URB and says what is to be done.
    /// The handler gives no data back for an URB that writes.
    pub fn step(&mut self, event: JobEvent) -> (action: JobAction)
        requires
            event@ is Handled && old(self)@.header.direction == DIRECTION_OUT
                ==> event@->Handled_0.len() == 0,
        ensures
            (final(self)@, action@) == job_step(old(self)@, event@),
    {
        match event {
            JobEvent::Started => match self.route {
                Route::Missing => self.done(NO_ENDPOINT, 0, Vec::new()),
                Route::Host(_) => JobAction::Transfer,
                Route::Handler(ep, intf) => JobAction::Handle(ep, intf),
            },
            JobEvent::Transferred(attempt, cancelled) => match attempt {
                Attempt::Completed(c) => {
                    if self.first.is_none() && c.status == ENODEV_ERRNO && !cancelled {
                        self.first = Some(c);
                        JobAction::Reconnect
                    } else {
                        self.done(c.status, c.actual_length, c.data)
                    }
                },
                Attempt::Failed(kind) => self.done(io_error_to_errno(kind), 0, Vec::new()),
                Attempt::NoHandle => match &self.first {
                    Some(c) => {
                        let data = c.data.clone();
                        assert(data@ =~= c.data@);
                        self.done(c.status, c.actual_length, data)
                    },
                    None => self.done(
                        io_error_to_errno(ErrorKind::NotConnected),
                        0,
                        Vec::new(),
                    ),
                },
            },
            JobEvent::Reconnected => JobAction::Transfer,
            JobEvent::Handled(data) => {
                let actual_length: u32 = if self.header.direction == DIRECTION_OUT {
                    truncate_len(self.data.len())
                } else {
                    truncate_len(data.len())
                };
                self.done(0, actual_length, data)
            },
            JobEvent::HandlerFailed(kind) => self.done(io_error_to_errno(kind), 0, Vec::new()),
        }
    }

    fn done(&self, status: i32, actual_length: u32, data: Vec<u8>) -> (r: JobAction)
        ensures
            r@ == self@.done(status, actual_length, data@),
    {
        let iso: Vec<u8> = Vec::new();
        let response = UsbIpResponse::usbip_ret_submit_result(
            &self.header,
            status,
            0,
            0,
            actual_length,
            data,
            iso,
        );
        assert(response@ =~= ret_submit(self.header, status, actual_length, data@));
        JobAction::Done(CompletedSubmit { seqnum: self.header.seqnum, status, response })
    }
}

impl JobView {
    /// What is asked of libusb for this URB: nothing, unless it goes there.
    pub open spec fn plan(self) -> Option<PlanView> {
        match self.route {
            RouteView::Host(ep) => plan(
                ep,
                self.transfer_flags,
                self.transfer_buffer_length,
                self.setup,
                self.data,
            ),
            _ => None,
        }
    }
}

/// How long to wait before the result of an URB is handed over once more:
/// twice as long as before, up to [`MAX_BACKOFF`].
pub fn next_backoff(backoff: u64) -> (r: u64)
    ensures
        r == (if 2 * backoff < MAX_BACKOFF {
            2 * backoff
        } else {
            MAX_BACKOFF as int
        }),
{
    if backoff < MAX_BACKOFF / 2 {
        2 * backoff
    } else {
        MAX_BACKOFF
    }
}

/// Whether data may answer an URB: as many bytes as are announced if it reads,
/// none if it writes.
pub open spec fn answers(header: UsbIpHeaderBasic, actual_length: u32, data: Seq<u8>) -> bool {
    if header.direction == DIRECTION_IN {
        actual_length == len32(data.len())
    } else {
        data.len() == 0
    }
}

impl JobView {
    /// What holds of every URB on its way.
    pub open spec fn valid(self) -> bool {
        &&& self.header.command == USBIP_RET_SUBMIT
        &&& self.header.direction == DIRECTION_IN || self.header.direction == DIRECTION_OUT
        &&& self.first matches Some(c) ==> answers(self.header, c.actual_length, c.data)
    }
}

/// Whether an event is one that can happen to an URB.
pub open spec fn fits(j: JobView, e: JobEventView) -> bool {
    match e {
        JobEventView::Transferred(AttemptView::Completed(c), _) => answers(
            j.header,
            c.actual_length,
            c.data,
        ),
        JobEventView::Handled(data) => j.header.direction == DIRECTION_OUT ==> data.len() == 0,
        _ => true,
    }
}

/// An URB that the client may send is valid, and stays so; its reply names it
/// and can be written to the socket.
pub proof fn law_reply_names_the_urb_and_is_serializable(
    device: DeviceView,
    c: SubmitView,
    j: JobView,
    e: JobEventView,
)
    ensures
        CommandView::Submit(c).acceptable() ==> new_job(device, c).valid(),
        j.valid() && fits(j, e) ==> job_step(j, e).0.valid(),
        job_step(j, e).0.header == j.header,
        job_step(j, e).1 matches JobActionView::Done(completed) ==> {
            &&& completed.seqnum == j.header.seqnum
            &&& completed.response is Submit
            &&& completed.response->Submit_0.header == j.header
            &&& j.valid() && fits(j, e) ==> completed.response.serializable()
        },
{
}

/// A device that is gone is looked for at most once for an URB.
pub proof fn law_at_most_one_reconnect(j: JobView, e: JobEventView)
    ensures
        job_step(j, e).1 is Reconnect ==> j.first is None && job_step(j, e).0.first is Some,
        j.first is Some ==> job_step(j, e).0.first == j.first && !(job_step(j, e).1 is Reconnect),
{
}

/// An URB for a device that is gone is tried again once the device was looked
/// for. If it was not found, the reply is what came of the first attempt, and
/// what came of the second one otherwise.
pub proof fn law_second_attempt(j: JobView, gone: CompletionView, second: AttemptView, cancelled: bool)
    requires
        j.route is Host,
        j.first is None,
        gone.status == ENODEV_ERRNO,
    ensures
        ({
            let (j1, a1) = job_step(j, JobEventView::Started);
            let (j2, a2) = job_step(
                j1,
                JobEventView::Transferred(AttemptView::Completed(gone), false),
            );
            let (j3, a3) = job_step(j2, JobEventView::Reconnected);
            let (_, a4) = job_step(j3, JobEventView::Transferred(second, cancelled));
            &&& a1 is Transfer
            &&& a2 is Reconnect
            &&& a3 is Transfer
            &&& a4 == j.done_with(
                if second is NoHandle {
                    AttemptView::Completed(gone)
                } else {
                    second
                },
            )
        }),
{
}

/// A cancelled URB is not tried again, even if its device is gone.
pub proof fn law_cancelled_urbs_are_not_retried(j: JobView, attempt: AttemptView)
    ensures
        job_step(j, JobEventView::Transferred(attempt, true)).1 is Done,
{
}

proof fn lemma_direction_bit(ep: u32)
    requires
        ep < 16,
    ensures
        (ep as u8) & 0x80u8 == 0,
        ((ep | 0x80) as u8) & 0x80u8 != 0,
{
    assert((ep as u8) & 0x80u8 == 0) by (bit_vector)
        requires
            ep < 16,
    ;
    assert(((ep | 0x80) as u8) & 0x80u8 != 0) by (bit_vector)
        requires
            ep < 16,
    ;
}

/// The endpoint that an URB goes to works in the direction that its header
/// gives.
pub proof fn law_endpoint_has_the_direction(device: DeviceView, header: UsbIpHeaderBasic)
    requires
        header.violation() is None,
    ensures
        match route(device, header) {
            RouteView::Missing => true,
            RouteView::Host(ep) => is_in(ep.address) == (header.direction == DIRECTION_IN),
            RouteView::Handler(ep, _) => is_in(ep.address) == (header.direction == DIRECTION_IN),
        },
{
    law_endpoint_has_address(device, endpoint_address(header));
    lemma_direction_bit(header.ep);
}

/// What libusb gives back for an URB that the client may send answers it.
pub proof fn law_transfers_answer_the_urb(
    device: DeviceView,
    c: SubmitView,
    filled: Seq<u8>,
    transfer_status: i32,
    actual_length: i32,
)
    requires
        CommandView::Submit(c).acceptable(),
        new_job(device, c).plan() is Some,
        filled.len() == new_job(device, c).plan()->0.buffer.len(),
    ensures
        ({
            let j = new_job(device, c);
            let p = j.plan()->0;
            let done = completion(
                filled,
                p.data_offset,
                p.direction_in,
                transfer_status,
                actual_length,
            );
            fits(j, JobEventView::Transferred(AttemptView::Completed(done), false))
        }),
{
    let j = new_job(device, c);
    law_endpoint_has_the_direction(device, c.header);
    law_completion_fits_the_urb(
        j.route->Host_0,
        j.transfer_flags,
        j.transfer_buffer_length,
        j.setup,
        j.data,
        filled,
        transfer_status,
        actual_length,
    );
}

/// A libusb attempt that is not tried again is answered, in either direction,
/// with its own status, its own length and its own data, under the header of
/// the URB.
pub proof fn law_completed_transfers_are_answered_as_they_ended(
    j: JobView,
    c: CompletionView,
    cancelled: bool,
)
    requires
        !(j.first is None && c.status == -19 && !cancelled),
    ensures
        ({
            let (next, action) = job_step(
                j,
                JobEventView::Transferred(AttemptView::Completed(c), cancelled),
            );
            &&& next == j
            &&& action matches JobActionView::Done(done)
            &&& done.seqnum == j.header.seqnum
            &&& done.status == c.status
            &&& done.response matches ResponseView::Submit(r)
            &&& r.header == j.header
            &&& r.status == (c.status as int) % 0x1_0000_0000
            &&& r.actual_length == c.actual_length
            &&& r.transfer_buffer == c.data
            &&& r.start_frame == 0
            &&& r.number_of_packets == 0
            &&& r.error_count == 0
            &&& r.iso_packet_descriptor.len() == 0
        }),
{
}

/// Whatever ends an URB is a whole answer to it: its sequence number, its
/// header, the status twice over, and nothing else but a length and data.
pub proof fn law_answers_are_whole(j: JobView, e: JobEventView)
    ensures
        job_step(j, e).1 matches JobActionView::Done(done) ==> {
            &&& done.seqnum == j.header.seqnum
            &&& done.response is Submit
            &&& done.response->Submit_0.header == j.header
            &&& done.response->Submit_0.status == (done.status as int) % 0x1_0000_0000
            &&& done.response->Submit_0.start_frame == 0
            &&& done.response->Submit_0.number_of_packets == 0
            &&& done.response->Submit_0.error_count == 0
            &&& done.response->Submit_0.iso_packet_descriptor.len() == 0
        },
{
}

/// A device that is gone is looked for if the first attempt on an URB that was
/// not cancelled found it gone, and only then; the result of that attempt is
/// kept.
pub proof fn law_when_a_device_is_looked_for(j: JobView, e: JobEventView)
    ensures
        job_step(j, e).1 is Reconnect <==> {
            &&& j.first is None
            &&& e matches JobEventView::Transferred(AttemptView::Completed(c), cancelled)
            &&& c.status == -19
            &&& !cancelled
        },
        job_step(j, e).1 is Reconnect ==> job_step(j, e).0.first == Some(
            e->Transferred_0->Completed_0,
        ),
        job_step(j, e).0.header == j.header,
        job_step(j, e).0.transfer_flags == j.transfer_flags,
        job_step(j, e).0.transfer_buffer_length == j.transfer_buffer_length,
        job_step(j, e).0.setup == j.setup,
        job_step(j, e).0.data == j.data,
        job_step(j, e).0.route == j.route,
        !(job_step(j, e).1 is Reconnect) ==> job_step(j, e).0.first == j.first,
{
}

/// After a device that was not found again, the URB is answered with what came
/// of the first attempt, field by field.
pub proof fn law_lost_devices_leave_the_first_result(j: JobView, cancelled: bool)
    requires
        j.first is Some,
    ensures
        ({
            let (_, action) = job_step(
                j,
                JobEventView::Transferred(AttemptView::NoHandle, cancelled),
            );
            &&& action matches JobActionView::Done(done)
            &&& done.status == j.first->0.status
            &&& done.response->Submit_0.actual_length == j.first->0.actual_length
            &&& done.response->Submit_0.transfer_buffer == j.first->0.data
        }),
{
}

/// A failure is answered with its Linux error number and moves nothing: of a
/// device that is not connected, of an attempt that could not be made, and of
/// the handler.
pub proof fn law_failures_move_nothing(j: JobView, kind: ErrorKind, cancelled: bool)
    ensures
        j.first is None ==> {
            &&& job_step(
                j,
                JobEventView::Transferred(AttemptView::NoHandle, cancelled),
            ).1 matches JobActionView::Done(done)
            &&& done.status == -107
            &&& done.response->Submit_0.actual_length == 0
            &&& done.response->Submit_0.transfer_buffer.len() == 0
        },
        ({
            &&& job_step(
                j,
                JobEventView::Transferred(AttemptView::Failed(kind), cancelled),
            ).1 matches JobActionView::Done(done)
            &&& done.status == errno_of(kind)
            &&& done.response->Submit_0.actual_length == 0
            &&& done.response->Submit_0.transfer_buffer.len() == 0
        }),
        ({
            &&& job_step(j, JobEventView::HandlerFailed(kind)).1 matches JobActionView::Done(done)
            &&& done.status == errno_of(kind)
            &&& done.response->Submit_0.actual_length == 0
            &&& done.response->Submit_0.transfer_buffer.len() == 0
        }),
{
}

/// What the handler gives back answers a read, with its length; a write is
/// answered with the length of what was written.
pub proof fn law_handlers_answer_the_urb(j: JobView, data: Seq<u8>)
    requires
        data.len() <= u32::MAX,
        j.data.len() <= u32::MAX,
    ensures
        ({
            let (next, action) = job_step(j, JobEventView::Handled(data));
            &&& next == j
            &&& action matches JobActionView::Done(done)
            &&& done.status == 0
            &&& done.response->Submit_0.status == 0
            &&& done.response->Submit_0.transfer_buffer == data
            &&& done.response->Submit_0.actual_length == (if j.header.direction == 0 {
                j.data.len()
            } else {
                data.len()
            })
        }),
{
}

/// An URB goes to the endpoint with its number, in its direction. Without such
/// an endpoint it is answered at once with status -2 and moves nothing. On a
/// physical device it goes to libusb unless the endpoint is a control one, and
/// it goes to the handler otherwise.
pub proof fn law_where_urbs_go(device: DeviceView, c: SubmitView)
    requires
        c.header.direction <= 1,
        c.header.ep <= 15,
    ensures
        ({
            let address = (if c.header.direction == 0 {
                c.header.ep as int
            } else {
                c.header.ep + 128
            }) as u8;
            let (_, action) = job_step(new_job(device, c), JobEventView::Started);
            match device.endpoint(address) {
                None => {
                    &&& action matches JobActionView::Done(done)
                    &&& done.status == -2
                    &&& done.response->Submit_0.actual_length == 0
                    &&& done.response->Submit_0.transfer_buffer.len() == 0
                },
                Some((ep, intf)) => if device.host_runtime is Some && ep.attributes != 0 {
                    &&& action == JobActionView::Transfer
                    &&& new_job(device, c).route == RouteView::Host(ep)
                } else {
                    action == JobActionView::Handle(ep, intf)
                },
            }
        }),
{
    let ep = c.header.ep;
    assert((ep | 0x80) as u8 == (ep + 128) as u8) by (bit_vector)
        requires
            ep <= 15,
    ;
}

/// A new URB has what the client sent, and the header of the client but for the
/// code of the reply.
pub proof fn law_new_urbs_have_what_the_client_sent(device: DeviceView, c: SubmitView)
    ensures
        new_job(device, c).header.command == 3,
        new_job(device, c).header.seqnum == c.header.seqnum,
        new_job(device, c).header.devid == c.header.devid,
        new_job(device, c).header.direction == c.header.direction,
        new_job(device, c).header.ep == c.header.ep,
        new_job(device, c).transfer_flags == c.transfer_flags,
        new_job(device, c).transfer_buffer_length == c.transfer_buffer_length,
        new_job(device, c).setup == setup_of(c.setup),
        new_job(device, c).data == c.data,
        new_job(device, c).first is None,
{
}

/// What is asked of libusb is planned for the endpoint of the URB from what the
/// client sent, and for an URB that goes elsewhere nothing is.
pub proof fn law_plans_are_made_from_the_urb(j: JobView)
    ensures
        j.route matches RouteView::Host(ep) ==> j.plan() == plan(
            ep,
            j.transfer_flags,
            j.transfer_buffer_length,
            j.setup,
            j.data,
        ),
        !(j.route is Host) ==> j.plan() is None,
        job_step(j, JobEventView::Reconnected) == (j, JobActionView::Transfer),
{
}

/// What happens to an URB, and what is to be done for it, is taken for what it
/// is.
pub proof fn law_job_events_and_actions_are_taken_as_they_are(
    e: JobEvent,
    a: JobAction,
    t: Attempt,
)
    ensures
        match e {
            JobEvent::Started => e@ is Started,
            JobEvent::Transferred(attempt, cancelled) => e@ == JobEventView::Transferred(
                attempt@,
                cancelled,
            ),
            JobEvent::Reconnected => e@ is Reconnected,
            JobEvent::Handled(data) => e@ == JobEventView::Handled(data@),
            JobEvent::HandlerFailed(kind) => e@ == JobEventView::HandlerFailed(kind),
        },
        match a {
            JobAction::Transfer => a@ is Transfer,
            JobAction::Reconnect => a@ is Reconnect,
            JobAction::Handle(ep, intf) => {
                &&& a@ is Handle
                &&& a@->Handle_0 == ep
                &&& a@->Handle_1 is Some <==> intf is Some
                &&& intf is Some ==> a@->Handle_1->0 == intf->0
            },
            JobAction::Done(completed) => a@ == JobActionView::Done(completed@),
        },
        match t {
            Attempt::NoHandle => t@ is NoHandle,
            Attempt::Failed(kind) => t@ == AttemptView::Failed(kind),
            Attempt::Completed(c) => t@ == AttemptView::Completed(c@),
        },
{
}

/// The longest wait before a result is handed over again is 50 milliseconds,
/// and an URB without an endpoint has status -2.
pub proof fn law_urb_constants()
    ensures
        MAX_BACKOFF == 50,
        NO_ENDPOINT == -2,
{
}

} // verus!
