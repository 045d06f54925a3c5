//! One connection: what the server does with each thing that happens on it.
//!
//! A [`Session`] decides and performs no I/O. Whoever owns the socket reports
//! every event to [`Session::step`], one at a time, and carries out the action
//! that comes back. Every [`Action::Send`] is answered with
//! [`Event::Written`] or [`Event::WriteFailed`] before anything else.

use std::collections::HashMap;

use vstd::prelude::*;
use vstd::utf8::{encode_utf8, encode_utf8_decode_utf8};

use crate::device::{DeviceView, UsbDevice};
use crate::error::{ErrorKind, ProtocolError, MAX_PENDING_URBS};
use crate::server::{
    busid_name, law_import_takes_an_available_device, law_import_takes_the_first_of_the_name, law_position_by_id, law_release_keeps_devices, law_take_keeps_devices,
    position_by_id, PoolView, UsbIpServer,
};
use crate::usbip_protocol::{
    ret_unlink, CommandView, ResponseView, SubmitView, UsbIpCommand, UsbIpHeaderBasic,
    UsbIpResponse, USBIP_RET_UNLINK,
};

verus! {

broadcast use vstd::std_specs::hash::group_hash_axioms;

/// Why a connection was given up.
#[derive(Clone, Copy, Debug, PartialEq, Eq, Structural)]
pub enum ConnectionError {
    /// The socket failed.
    Io(ErrorKind),
    /// The peer, or a limit of the server, broke the protocol.
    Protocol(ProtocolError),
}

impl ConnectionError {
    pub open spec fn kind_spec(self) -> ErrorKind {
        match self {
            ConnectionError::Io(kind) => kind,
            ConnectionError::Protocol(e) => e.kind_spec(),
        }
    }

    /// The kind of I/O error that this error is reported as.
    pub fn kind(&self) -> (kind: ErrorKind)
        ensures
            kind == self.kind_spec(),
    {
        match self {
            ConnectionError::Io(kind) => *kind,
            ConnectionError::Protocol(e) => e.kind(),
        }
    }
}

/// How a connection ended.
#[derive(Clone, Copy, Debug, PartialEq, Eq, Structural)]
pub enum Outcome {
    /// The peer closed it.
    Closed,
    /// It was given up.
    Failed(ConnectionError),
}

/// How far a connection is.
#[derive(Clone, Copy, Debug, PartialEq, Eq, Structural)]
pub enum Phase {
    /// Commands are read.
    Running,
    /// No more commands are read. URBs in flight were cancelled, and the peer
    /// may still be waiting for the replies to them.
    Draining(Outcome),
    Ended(Outcome),
}

/// What has become of an URB.
#[derive(Debug)]
pub struct CompletedSubmit {
    pub seqnum: u32,
    pub status: i32,
    /// The reply to the URB.
    pub response: UsbIpResponse,
}

/// What a [`CompletedSubmit`] says.
#[verifier::ext_equal]
pub struct CompletedView {
    pub seqnum: u32,
    pub status: i32,
    pub response: ResponseView,
}

impl View for CompletedSubmit {
    type V = CompletedView;

    open spec fn view(&self) -> CompletedView {
        CompletedView { seqnum: self.seqnum, status: self.status, response: self.response@ }
    }
}

impl Clone for CompletedSubmit {
    fn clone(&self) -> (r: Self)
        ensures
            r@ == self@,
    {
        CompletedSubmit {
            seqnum: self.seqnum,
            status: self.status,
            response: self.response.clone(),
        }
    }
}

/// What can happen on a connection.
#[derive(Debug)]
pub enum Event {
    /// The peer sent a command.
    Command(UsbIpCommand),
    /// No further command can be read.
    ReadFailed(ConnectionError),
    /// An URB is done.
    Completed(CompletedSubmit),
    /// No URB will be done any more.
    WorkersClosed,
    /// The last reply was sent.
    Written,
    /// The last reply could not be sent.
    WriteFailed(ErrorKind),
    /// The time for URBs in flight after the peer went away is over.
    DrainTimedOut,
}

/// What an [`Event`] says.
#[verifier::ext_equal]
pub enum EventView {
    Command(CommandView),
    ReadFailed(ConnectionError),
    Completed(CompletedView),
    WorkersClosed,
    Written,
    WriteFailed(ErrorKind),
    DrainTimedOut,
}

impl View for Event {
    type V = EventView;

    open spec fn view(&self) -> EventView {
        match self {
            Event::Command(c) => EventView::Command(c@),
            Event::ReadFailed(e) => EventView::ReadFailed(*e),
            Event::Completed(c) => EventView::Completed(c@),
            Event::WorkersClosed => EventView::WorkersClosed,
            Event::Written => EventView::Written,
            Event::WriteFailed(kind) => EventView::WriteFailed(*kind),
            Event::DrainTimedOut => EventView::DrainTimedOut,
        }
    }
}

/// What is to be done on a connection.
#[derive(Debug)]
pub enum Action {
    /// Nothing, until the next event.
    Wait,
    /// Send a reply.
    Send(UsbIpResponse),
    /// Hand an URB to the device.
    Start(UsbDevice, UsbIpCommand),
    /// Cancel the URB with this sequence number.
    Cancel(u32),
    /// Cancel every URB in flight, and wait for them no longer than
    /// [`crate::server::TEARDOWN_TIMEOUT`].
    CancelAll,
    /// Close the connection.
    Close(Outcome),
}

/// What an [`Action`] says.
#[verifier::ext_equal]
pub enum ActionView {
    Wait,
    Send(ResponseView),
    Start(DeviceView, CommandView),
    Cancel(u32),
    CancelAll,
    Close(Outcome),
}

impl View for Action {
    type V = ActionView;

    open spec fn view(&self) -> ActionView {
        match self {
            Action::Wait => ActionView::Wait,
            Action::Send(r) => ActionView::Send(r@),
            Action::Start(d, c) => ActionView::Start(d@, c@),
            Action::Cancel(seqnum) => ActionView::Cancel(*seqnum),
            Action::CancelAll => ActionView::CancelAll,
            Action::Close(outcome) => ActionView::Close(*outcome),
        }
    }
}

/// The state of a connection.
#[verifier::ext_equal]
pub struct SessionView {
    /// The imported device.
    pub device: Option<DeviceView>,
    /// The bus id under which the imported device is in use.
    pub imported: Option<Seq<char>>,
    /// The URBs in flight by sequence number, each with the header of the
    /// reply to the unlink that cancelled it.
    pub pending: Map<u32, Option<UsbIpHeaderBasic>>,
    pub phase: Phase,
}

/// A connection that was just accepted.
pub open spec fn fresh() -> SessionView {
    SessionView { device: None, imported: None, pending: Map::empty(), phase: Phase::Running }
}

/// The reply to an URB that is done: to the unlink, if there was one.
pub open spec fn completion_reply(
    unlink_header: Option<UsbIpHeaderBasic>,
    completed: CompletedView,
) -> ResponseView {
    match unlink_header {
        Some(header) => ret_unlink(header, completed.status),
        None => completed.response,
    }
}

/// What keeps an URB from being started.
pub open spec fn submit_violation(s: SessionView, c: SubmitView) -> Option<ProtocolError> {
    if s.device is None {
        Some(ProtocolError::NoImportedDevice)
    } else if s.pending.contains_key(c.header.seqnum) {
        Some(ProtocolError::DuplicateSeqnum(c.header.seqnum))
    } else if c.header.devid != s.device->0.devid() {
        Some(
            ProtocolError::DevidMismatch {
                devid: c.header.devid,
                expected: s.device->0.devid(),
            },
        )
    } else if s.pending.len() >= MAX_PENDING_URBS {
        Some(ProtocolError::TooManyPendingUrbs)
    } else {
        None
    }
}

/// How a connection ends on which no further command can be read.
pub open spec fn outcome_of_read_error(e: ConnectionError) -> Outcome {
    if e.kind_spec() == ErrorKind::UnexpectedEof {
        Outcome::Closed
    } else {
        Outcome::Failed(e)
    }
}

/// The connection is over: the imported device becomes available again,
/// whatever the reason.
pub open spec fn end(s: SessionView, p: PoolView, outcome: Outcome) -> (
    SessionView,
    PoolView,
    ActionView,
) {
    (
        SessionView {
            device: None,
            imported: None,
            pending: Map::empty(),
            phase: Phase::Ended(outcome),
        },
        p.release(s.imported),
        ActionView::Close(outcome),
    )
}

/// An import: a device that the connection had before becomes available again
/// first.
pub open spec fn step_import(s: SessionView, p: PoolView, busid: Seq<u8>) -> (
    SessionView,
    PoolView,
    ActionView,
) {
    let released = p.release(s.imported);
    match released.importable(busid) {
        Some(at) => {
            let device = released.available[at];
            (
                SessionView { device: Some(device), imported: Some(device.bus_id), ..s },
                released.take(at),
                ActionView::Send(ResponseView::Import { status: 0, device: Some(device) }),
            )
        },
        None => (
            SessionView { device: None, imported: None, ..s },
            released,
            ActionView::Send(ResponseView::Import { status: 1, device: None }),
        ),
    }
}

/// An URB.
pub open spec fn step_submit(s: SessionView, p: PoolView, c: SubmitView) -> (
    SessionView,
    PoolView,
    ActionView,
) {
    match submit_violation(s, c) {
        Some(e) => end(s, p, Outcome::Failed(ConnectionError::Protocol(e))),
        None => (
            SessionView { pending: s.pending.insert(c.header.seqnum, None), ..s },
            p,
            ActionView::Start(s.device->0, CommandView::Submit(c)),
        ),
    }
}

/// An unlink: of an URB in flight that none has cancelled yet, it is answered
/// when the URB is done, and at once otherwise.
pub open spec fn step_unlink(
    s: SessionView,
    p: PoolView,
    header: UsbIpHeaderBasic,
    seqnum: u32,
) -> (SessionView, PoolView, ActionView) {
    let reply = UsbIpHeaderBasic { command: USBIP_RET_UNLINK as u32, ..header };
    if s.pending.contains_key(seqnum) && s.pending[seqnum] is None {
        (
            SessionView { pending: s.pending.insert(seqnum, Some(reply)), ..s },
            p,
            ActionView::Cancel(seqnum),
        )
    } else {
        (s, p, ActionView::Send(ret_unlink(reply, 0)))
    }
}

/// An URB that is done. One that is not in flight is nobody's any more.
pub open spec fn step_completed(s: SessionView, p: PoolView, c: CompletedView) -> (
    SessionView,
    PoolView,
    ActionView,
) {
    if s.pending.contains_key(c.seqnum) {
        (
            SessionView { pending: s.pending.remove(c.seqnum), ..s },
            p,
            ActionView::Send(completion_reply(s.pending[c.seqnum], c)),
        )
    } else {
        (s, p, ActionView::Wait)
    }
}

/// What happens while commands are read.
pub open spec fn step_running(s: SessionView, p: PoolView, e: EventView) -> (
    SessionView,
    PoolView,
    ActionView,
) {
    match e {
        EventView::Command(CommandView::Devlist { .. }) => (s, p, ActionView::Send(p.devlist())),
        EventView::Command(CommandView::Import { busid, .. }) => step_import(s, p, busid),
        EventView::Command(CommandView::Submit(c)) => step_submit(s, p, c),
        EventView::Command(CommandView::Unlink { header, unlink_seqnum }) => step_unlink(
            s,
            p,
            header,
            unlink_seqnum,
        ),
        EventView::ReadFailed(error) => {
            let outcome = outcome_of_read_error(error);
            if s.pending.len() == 0 {
                end(s, p, outcome)
            } else {
                (
                    SessionView { phase: Phase::Draining(outcome), ..s },
                    p,
                    ActionView::CancelAll,
                )
            }
        },
        EventView::Completed(c) => step_completed(s, p, c),
        EventView::WorkersClosed => if s.pending.len() == 0 {
            (s, p, ActionView::Wait)
        } else {
            end(s, p, Outcome::Failed(ConnectionError::Protocol(ProtocolError::WorkersClosed)))
        },
        EventView::WriteFailed(kind) => end(s, p, Outcome::Failed(ConnectionError::Io(kind))),
        EventView::Written => (s, p, ActionView::Wait),
        EventView::DrainTimedOut => (s, p, ActionView::Wait),
    }
}

/// What happens once no more commands are read.
pub open spec fn step_draining(s: SessionView, p: PoolView, e: EventView, outcome: Outcome) -> (
    SessionView,
    PoolView,
    ActionView,
) {
    match e {
        EventView::Completed(c) => step_completed(s, p, c),
        EventView::Written => if s.pending.len() == 0 {
            end(s, p, outcome)
        } else {
            (s, p, ActionView::Wait)
        },
        EventView::WorkersClosed => end(s, p, outcome),
        EventView::WriteFailed(_) => end(s, p, outcome),
        EventView::DrainTimedOut => end(s, p, outcome),
        EventView::Command(_) => (s, p, ActionView::Wait),
        EventView::ReadFailed(_) => (s, p, ActionView::Wait),
    }
}

/// What becomes of a connection and of the devices of the server, and what is
/// to be done, when `e` happens on the connection.
pub open spec fn step(s: SessionView, p: PoolView, e: EventView) -> (
    SessionView,
    PoolView,
    ActionView,
) {
    match s.phase {
        Phase::Running => step_running(s, p, e),
        Phase::Draining(outcome) => step_draining(s, p, e, outcome),
        Phase::Ended(outcome) => (s, p, ActionView::Close(outcome)),
    }
}

/// The server's side of one connection.
pub struct Session {
    device: Option<UsbDevice>,
    imported_device_id: Option<String>,
    pending_urbs: HashMap<u32, Option<UsbIpHeaderBasic>>,
    phase: Phase,
}

impl View for Session {
    type V = SessionView;

    closed spec fn view(&self) -> SessionView {
        SessionView {
            device: match self.device {
                Some(d) => Some(d@),
                None => None,
            },
            imported: match self.imported_device_id {
                Some(id) => Some(id@),
                None => None,
            },
            pending: self.pending_urbs@,
            phase: self.phase,
        }
    }
}

impl Session {
    /// A connection that was just accepted.
    pub fn new() -> (r: Self)
        ensures
            r@ == fresh(),
    {
        let r = Session {
            device: None,
            imported_device_id: None,
            pending_urbs: HashMap::new(),
            phase: Phase::Running,
        };
        assert(r@ =~= fresh());
        r
    }

    /// Whether URBs are in flight.
    pub fn has_pending(&self) -> (r: bool)
        ensures
            r == (self@.pending.len() > 0),
    {
        self.pending_urbs.len() > 0
    }

    /// Whether commands are still read.
    pub fn is_running(&self) -> (r: bool)
        ensures
            r == (self@.phase == Phase::Running),
    {
        match self.phase {
            Phase::Running => true,
            _ => false,
        }
    }

    /// Takes note of what happened on the connection and says what is to be
    /// done. The devices of the server are locked meanwhile.
    pub fn step(&mut self, pool: &mut UsbIpServer, event: Event) -> (action: Action)
        requires
            old(pool).wf(),
        ensures
            (final(self)@, final(pool)@, action@) == step(old(self)@, old(pool)@, event@),
            final(pool).wf(),
    {
        match self.phase {
            Phase::Running => self.run(pool, event),
            Phase::Draining(outcome) => self.drain(pool, event, outcome),
            Phase::Ended(outcome) => Action::Close(outcome),
        }
    }

    fn run(&mut self, pool: &mut UsbIpServer, event: Event) -> (action: Action)
        requires
            old(pool).wf(),
            old(self)@.phase == Phase::Running,
        ensures
            (final(self)@, final(pool)@, action@) == step_running(old(self)@, old(pool)@, event@),
            final(pool).wf(),
    {
        match event {
            Event::Command(UsbIpCommand::OpReqDevlist { .. }) => Action::Send(pool.devlist()),
            Event::Command(UsbIpCommand::OpReqImport { busid, .. }) => self.import(pool, &busid),
            Event::Command(UsbIpCommand::UsbIpCmdUnlink { header, unlink_seqnum }) => self.unlink(
                pool,
                header,
                unlink_seqnum,
            ),
            Event::Command(command) => self.submit(pool, command),
            Event::ReadFailed(error) => {
                let outcome = match error.kind() {
                    ErrorKind::UnexpectedEof => Outcome::Closed,
                    _ => Outcome::Failed(error),
                };
                if self.pending_urbs.len() == 0 {
                    self.end(pool, outcome)
                } else {
                    self.phase = Phase::Draining(outcome);
                    Action::CancelAll
                }
            },
            Event::Completed(completed) => self.complete(pool, completed),
            Event::WorkersClosed => {
                if self.pending_urbs.len() == 0 {
                    Action::Wait
                } else {
                    self.end(
                        pool,
                        Outcome::Failed(ConnectionError::Protocol(ProtocolError::WorkersClosed)),
                    )
                }
            },
            Event::WriteFailed(kind) => self.end(pool, Outcome::Failed(ConnectionError::Io(kind))),
            Event::Written => Action::Wait,
            Event::DrainTimedOut => Action::Wait,
        }
    }

    fn drain(&mut self, pool: &mut UsbIpServer, event: Event, outcome: Outcome) -> (action: Action)
        requires
            old(pool).wf(),
        ensures
            (final(self)@, final(pool)@, action@) == step_draining(
                old(self)@,
                old(pool)@,
                event@,
                outcome,
            ),
            final(pool).wf(),
    {
        match event {
            Event::Completed(completed) => self.complete(pool, completed),
            Event::Written => {
                if self.pending_urbs.len() == 0 {
                    self.end(pool, outcome)
                } else {
                    Action::Wait
                }
            },
            Event::WorkersClosed => self.end(pool, outcome),
            Event::WriteFailed(_) => self.end(pool, outcome),
            Event::DrainTimedOut => self.end(pool, outcome),
            Event::Command(_) => Action::Wait,
            Event::ReadFailed(_) => Action::Wait,
        }
    }

    /// Makes the device that this connection has imported available again.
    fn release(&mut self, pool: &mut UsbIpServer)
        requires
            old(pool).wf(),
        ensures
            final(pool)@ == old(pool)@.release(old(self)@.imported),
            final(pool).wf(),
            final(self)@ == (SessionView { device: None, imported: None, ..old(self)@ }),
    {
        match &self.imported_device_id {
            Some(id) => pool.release(id.as_str()),
            None => {},
        }
        self.imported_device_id = None;
        self.device = None;
    }

    fn end(&mut self, pool: &mut UsbIpServer, outcome: Outcome) -> (action: Action)
        requires
            old(pool).wf(),
        ensures
            (final(self)@, final(pool)@, action@) == end(old(self)@, old(pool)@, outcome),
            final(pool).wf(),
    {
        self.release(pool);
        self.pending_urbs = HashMap::new();
        self.phase = Phase::Ended(outcome);
        Action::Close(outcome)
    }

    fn import(&mut self, pool: &mut UsbIpServer, busid: &[u8; 32]) -> (action: Action)
        requires
            old(pool).wf(),
        ensures
            (final(self)@, final(pool)@, action@) == step_import(old(self)@, old(pool)@, busid@),
            final(pool).wf(),
    {
        self.release(pool);
        match pool.import(busid) {
            Some(device) => {
                let response = UsbIpResponse::op_rep_import_success(&device);
                self.imported_device_id = Some(device.bus_id.clone());
                self.device = Some(device);
                Action::Send(response)
            },
            None => Action::Send(UsbIpResponse::op_rep_import_fail()),
        }
    }

    fn submit(&mut self, pool: &mut UsbIpServer, command: UsbIpCommand) -> (action: Action)
        requires
            old(pool).wf(),
            command@ is Submit,
        ensures
            (final(self)@, final(pool)@, action@) == step_submit(
                old(self)@,
                old(pool)@,
                command@->Submit_0,
            ),
            final(pool).wf(),
    {
        let header = match &command {
            UsbIpCommand::UsbIpCmdSubmit { header, .. } => *header,
            _ => return Action::Wait,
        };
        let device = match &self.device {
            Some(device) => device.clone(),
            None => return self.fail(pool, ProtocolError::NoImportedDevice),
        };
        if self.pending_urbs.contains_key(&header.seqnum) {
            return self.fail(pool, ProtocolError::DuplicateSeqnum(header.seqnum));
        }
        let expected: u32 = device.devid();
        if header.devid != expected {
            return self.fail(
                pool,
                ProtocolError::DevidMismatch { devid: header.devid, expected },
            );
        }
        if self.pending_urbs.len() >= MAX_PENDING_URBS {
            return self.fail(pool, ProtocolError::TooManyPendingUrbs);
        }
        self.pending_urbs.insert(header.seqnum, None);
        Action::Start(device, command)
    }

    fn fail(&mut self, pool: &mut UsbIpServer, error: ProtocolError) -> (action: Action)
        requires
            old(pool).wf(),
        ensures
            (final(self)@, final(pool)@, action@) == end(
                old(self)@,
                old(pool)@,
                Outcome::Failed(ConnectionError::Protocol(error)),
            ),
            final(pool).wf(),
    {
        self.end(pool, Outcome::Failed(ConnectionError::Protocol(error)))
    }

    fn unlink(&mut self, pool: &UsbIpServer, header: UsbIpHeaderBasic, seqnum: u32) -> (action:
        Action)
        ensures
            (final(self)@, pool@, action@) == step_unlink(old(self)@, pool@, header, seqnum),
    {
        let mut reply = header;
        reply.command = USBIP_RET_UNLINK as u32;
        let cancels = match self.pending_urbs.get(&seqnum) {
            Some(None) => true,
            _ => false,
        };
        if cancels {
            self.pending_urbs.insert(seqnum, Some(reply));
            Action::Cancel(seqnum)
        } else {
            Action::Send(UsbIpResponse::usbip_ret_unlink_result(&reply, 0))
        }
    }

    fn complete(&mut self, pool: &UsbIpServer, completed: CompletedSubmit) -> (action: Action)
        ensures
            (final(self)@, pool@, action@) == step_completed(old(self)@, pool@, completed@),
    {
        match self.pending_urbs.remove(&completed.seqnum) {
            Some(Some(header)) => Action::Send(
                UsbIpResponse::usbip_ret_unlink_result(&header, completed.status),
            ),
            Some(None) => Action::Send(completed.response),
            None => Action::Wait,
        }
    }
}

impl SessionView {
    /// What holds of every connection: the imported device is the one under
    /// whose bus id it is in use, no more URBs are in flight than the limit,
    /// and a connection that is over holds nothing.
    pub open spec fn valid(self) -> bool {
        &&& self.device is Some <==> self.imported is Some
        &&& self.device is Some ==> self.device->0.bus_id == self.imported->0
        &&& self.pending.dom().finite()
        &&& self.pending.len() <= MAX_PENDING_URBS
        &&& forall|seqnum: u32|
            self.pending.contains_key(seqnum) && (#[trigger] self.pending[seqnum]) is Some
                ==> self.pending[seqnum]->0.command == USBIP_RET_UNLINK
        &&& self.phase is Ended ==> self.imported is None && self.pending.len() == 0
    }
}

/// A new connection is as every connection has to be, and every event leaves
/// it so.
pub proof fn law_step_keeps_valid(s: SessionView, p: PoolView, e: EventView)
    ensures
        fresh().valid(),
        s.valid() ==> step(s, p, e).0.valid(),
{
}

/// The URBs in flight on a connection never exceed the limit.
pub proof fn law_pending_is_bounded(s: SessionView, p: PoolView, e: EventView)
    requires
        s.valid(),
    ensures
        step(s, p, e).0.pending.len() <= MAX_PENDING_URBS,
{
    law_step_keeps_valid(s, p, e);
}

/// The server as a whole: each connection is valid, no two devices have the
/// same bus id, and the devices in use are just those that the connections
/// have imported, each of them by one connection.
pub open spec fn consistent(p: PoolView, sessions: Seq<SessionView>) -> bool {
    &&& p.distinct()
    &&& forall|i: int| 0 <= i < sessions.len() ==> (#[trigger] sessions[i]).valid()
    &&& forall|i: int|
        0 <= i < sessions.len() && (#[trigger] sessions[i]).imported is Some
            ==> p.used.contains_pair(sessions[i].imported->0, sessions[i].device->0)
    &&& forall|i: int, j: int|
        0 <= i < j < sessions.len() && (#[trigger] sessions[i]).imported is Some
            ==> sessions[i].imported != (#[trigger] sessions[j]).imported
    &&& forall|id: Seq<char>| #[trigger]
        p.used.contains_key(id) ==> exists|i: int|
            0 <= i < sessions.len() && (#[trigger] sessions[i]).imported == Some(id)
}

/// Whatever happens on a connection, the server stays consistent and neither
/// loses nor duplicates a device.
pub proof fn law_step_keeps_consistent(
    p: PoolView,
    sessions: Seq<SessionView>,
    at: int,
    e: EventView,
)
    requires
        consistent(p, sessions),
        0 <= at < sessions.len(),
    ensures
        ({
            let (s, q, _) = step(sessions[at], p, e);
            &&& consistent(q, sessions.update(at, s))
            &&& q.devices() == p.devices()
        }),
{
    let (s, q, _) = step(sessions[at], p, e);
    let after = sessions.update(at, s);
    law_step_keeps_valid(sessions[at], p, e);
    let released = p.release(sessions[at].imported);
    law_release_keeps_devices(p, sessions[at].imported);
    if q == p && s.imported == sessions[at].imported && s.device == sessions[at].device {
        lemma_consistent_same(p, sessions, at, s);
    } else if q == released && s.imported is None {
        lemma_consistent_released(p, sessions, at, s);
    } else {
        let busid = e->Command_0->busid;
        let i = released.importable(busid)->0;
        law_import_takes_an_available_device(released, busid);
        law_take_keeps_devices(released, i);
        let gone = SessionView { device: None, imported: None, ..sessions[at] };
        lemma_consistent_released(p, sessions, at, gone);
        lemma_consistent_taken(released, sessions.update(at, gone), at, s, i);
        assert(sessions.update(at, gone).update(at, s) =~= after);
    }
}

proof fn lemma_consistent_same(p: PoolView, sessions: Seq<SessionView>, at: int, s: SessionView)
    requires
        consistent(p, sessions),
        0 <= at < sessions.len(),
        s.valid(),
        s.imported == sessions[at].imported,
        s.device == sessions[at].device,
    ensures
        consistent(p, sessions.update(at, s)),
{
    let after = sessions.update(at, s);
    assert forall|i: int| 0 <= i < after.len() implies (#[trigger] after[i]).imported
        == sessions[i].imported && after[i].device == sessions[i].device by {}
    assert forall|id: Seq<char>| #[trigger] p.used.contains_key(id) implies exists|i: int|
        0 <= i < after.len() && (#[trigger] after[i]).imported == Some(id) by {
        let i = choose|i: int|
            0 <= i < sessions.len() && (#[trigger] sessions[i]).imported == Some(id);
        assert(after[i].imported == Some(id));
    }
}

proof fn lemma_consistent_released(
    p: PoolView,
    sessions: Seq<SessionView>,
    at: int,
    s: SessionView,
)
    requires
        consistent(p, sessions),
        0 <= at < sessions.len(),
        s.valid(),
        s.imported is None,
    ensures
        consistent(p.release(sessions[at].imported), sessions.update(at, s)),
{
    let id = sessions[at].imported;
    let q = p.release(id);
    let after = sessions.update(at, s);
    law_release_keeps_devices(p, id);
    assert forall|i: int| 0 <= i < after.len() && (#[trigger] after[i]).imported is Some implies
        q.used.contains_pair(after[i].imported->0, after[i].device->0) by {
        assert(i != at && after[i] == sessions[i]);
        if id is Some {
            assert(sessions[i].imported != sessions[at].imported);
        }
    }
    assert forall|k: Seq<char>| #[trigger] q.used.contains_key(k) implies exists|i: int|
        0 <= i < after.len() && (#[trigger] after[i]).imported == Some(k) by {
        let i = choose|i: int|
            0 <= i < sessions.len() && (#[trigger] sessions[i]).imported == Some(k);
        assert(i != at);
        assert(after[i].imported == Some(k));
    }
}

proof fn lemma_consistent_taken(
    p: PoolView,
    sessions: Seq<SessionView>,
    at: int,
    s: SessionView,
    device: int,
)
    requires
        consistent(p, sessions),
        0 <= at < sessions.len(),
        sessions[at].imported is None,
        0 <= device < p.available.len(),
        s.valid(),
        s.device == Some(p.available[device]),
        s.imported == Some(p.available[device].bus_id),
    ensures
        consistent(p.take(device), sessions.update(at, s)),
{
    let id = p.available[device].bus_id;
    let q = p.take(device);
    let after = sessions.update(at, s);
    law_take_keeps_devices(p, device);
    assert(!p.used.contains_key(id));
    assert forall|i: int| 0 <= i < after.len() && (#[trigger] after[i]).imported is Some implies
        q.used.contains_pair(after[i].imported->0, after[i].device->0) by {
        if i != at {
            assert(after[i] == sessions[i]);
        }
    }
    assert forall|i: int, j: int|
        0 <= i < j < after.len() && (#[trigger] after[i]).imported is Some implies
        after[i].imported != (#[trigger] after[j]).imported by {
        if i != at {
            assert(after[i] == sessions[i]);
            assert(p.used.contains_key(sessions[i].imported->0));
        }
        if j != at {
            assert(after[j] == sessions[j]);
            if sessions[j].imported is Some {
                assert(p.used.contains_key(sessions[j].imported->0));
            }
        }
    }
    assert forall|k: Seq<char>| #[trigger] q.used.contains_key(k) implies exists|i: int|
        0 <= i < after.len() && (#[trigger] after[i]).imported == Some(k) by {
        if k == id {
            assert(after[at].imported == Some(k));
        } else {
            assert(p.used.contains_key(k));
            let i = choose|i: int|
                0 <= i < sessions.len() && (#[trigger] sessions[i]).imported == Some(k);
            assert(after[i].imported == Some(k));
        }
    }
}

/// A server without connections, whose devices have different bus ids, is
/// consistent, and stays so when a connection is accepted.
pub proof fn law_accept_keeps_consistent(p: PoolView, sessions: Seq<SessionView>)
    ensures
        p.distinct() && p.used.dom() == Set::<Seq<char>>::empty() ==> consistent(p, seq![]),
        consistent(p, sessions) ==> consistent(p, sessions.push(fresh())),
{
    if p.distinct() && p.used.dom() == Set::<Seq<char>>::empty() {
        assert forall|id: Seq<char>| #[trigger] p.used.contains_key(id) implies false by {
            assert(p.used.dom().contains(id));
        }
    }
    if consistent(p, sessions) {
        let after = sessions.push(fresh());
        assert forall|i: int| 0 <= i < after.len() implies (#[trigger] after[i]).valid() by {
            if i < sessions.len() {
                assert(after[i] == sessions[i]);
            }
        }
        assert forall|i: int| 0 <= i < after.len() && (#[trigger] after[i]).imported is Some implies
            p.used.contains_pair(after[i].imported->0, after[i].device->0) by {
            assert(after[i] == sessions[i]);
        }
        assert forall|i: int, j: int|
            0 <= i < j < after.len() && (#[trigger] after[i]).imported is Some implies
            after[i].imported != (#[trigger] after[j]).imported by {
            assert(after[i] == sessions[i]);
            if j < sessions.len() {
                assert(after[j] == sessions[j]);
            }
        }
        assert forall|id: Seq<char>| #[trigger] p.used.contains_key(id) implies exists|i: int|
            0 <= i < after.len() && (#[trigger] after[i]).imported == Some(id) by {
            let i = choose|i: int|
                0 <= i < sessions.len() && (#[trigger] sessions[i]).imported == Some(id);
            assert(after[i].imported == Some(id));
        }
    }
}

/// Once every connection is over, no device is in use: all are available
/// again, however the connections ended.
pub proof fn law_all_devices_come_back(p: PoolView, sessions: Seq<SessionView>)
    requires
        consistent(p, sessions),
        forall|i: int| 0 <= i < sessions.len() ==> (#[trigger] sessions[i]).phase is Ended,
    ensures
        p.used.dom() == Set::<Seq<char>>::empty(),
        p.devices() == p.available.to_set(),
{
    assert forall|id: Seq<char>| !p.used.contains_key(id) by {
        if p.used.contains_key(id) {
            let i = choose|i: int|
                0 <= i < sessions.len() && (#[trigger] sessions[i]).imported == Some(id);
            assert(sessions[i].valid());
        }
    }
    assert(p.used.dom() =~= Set::<Seq<char>>::empty());
    assert(p.devices() =~= p.available.to_set());
}

/// A connection that is closed has given its device back.
pub proof fn law_close_releases_the_device(s: SessionView, p: PoolView, e: EventView)
    requires
        s.valid(),
        p.distinct(),
        !(s.phase is Ended),
        step(s, p, e).2 is Close,
    ensures
        ({
            let (t, q, action) = step(s, p, e);
            &&& t.phase == Phase::Ended(action->Close_0)
            &&& t.imported is None
            &&& q == p.release(s.imported)
            &&& s.imported is Some && p.used.contains_pair(s.imported->0, s.device->0)
                ==> q.available.contains(s.device->0) && !q.used.contains_key(s.imported->0)
        }),
{
    law_release_keeps_devices(p, s.imported);
}

/// A device that one connection has imported is refused to every other.
pub proof fn law_single_connection_per_device(
    p: PoolView,
    sessions: Seq<SessionView>,
    owner: int,
    other: int,
    busid: Seq<u8>,
)
    requires
        consistent(p, sessions),
        0 <= owner < sessions.len(),
        0 <= other < sessions.len(),
        owner != other,
        sessions[owner].imported is Some,
        busid_name(busid) == encode_utf8(sessions[owner].imported->0),
        sessions[other].phase is Running,
    ensures
        ({
            let (s, q, action) = step(
                sessions[other],
                p,
                EventView::Command(CommandView::Import { status: 0, busid }),
            );
            &&& action == ActionView::Send(ResponseView::Import { status: 1, device: None })
            &&& s.device is None
            &&& q.used.contains_key(sessions[owner].imported->0)
        }),
{
    let id = sessions[owner].imported->0;
    let released = p.release(sessions[other].imported);
    law_release_keeps_devices(p, sessions[other].imported);
    law_import_takes_an_available_device(released, busid);
    assert(p.used.contains_key(id));
    assert(sessions[other].imported != Some(id)) by {
        if owner < other {
            assert(sessions[owner].imported != sessions[other].imported);
        } else if sessions[other].imported is Some {
            assert(sessions[other].imported != sessions[owner].imported);
        }
    }
    assert(released.used.contains_key(id));
    if let Some(at) = released.importable(busid) {
        encode_utf8_decode_utf8(released.available[at].bus_id);
        encode_utf8_decode_utf8(id);
        assert(released.available[at].bus_id == id);
    }
}

/// A second import on a connection gives the first device back, whether or not
/// it finds the second.
pub proof fn law_second_import_releases_the_first(s: SessionView, p: PoolView, busid: Seq<u8>)
    requires
        s.valid(),
        s.phase is Running,
        s.imported is Some,
        p.distinct(),
        p.used.contains_pair(s.imported->0, s.device->0),
        busid_name(busid) != encode_utf8(s.imported->0),
    ensures
        ({
            let (t, q, _) = step(
                s,
                p,
                EventView::Command(CommandView::Import { status: 0, busid }),
            );
            &&& q.available.contains(s.device->0)
            &&& !q.used.contains_key(s.imported->0)
            &&& t.imported != s.imported
        }),
{
    let released = p.release(s.imported);
    law_release_keeps_devices(p, s.imported);
    law_import_takes_an_available_device(released, busid);
    let last = released.available.len() - 1;
    assert(released.available[last] == s.device->0);
    if let Some(at) = released.importable(busid) {
        assert(at != last);
        assert(released.take(at).available[last - 1] == s.device->0);
    }
}

/// Every URB is answered once: a reply to one is sent only when it is done and
/// in flight, and it is then in flight no more. Only an URB that was started
/// comes to be in flight.
pub proof fn law_urbs_are_answered_once(s: SessionView, p: PoolView, e: EventView, seqnum: u32)
    ensures
        ({
            let (t, _, action) = step(s, p, e);
            &&& action matches ActionView::Send(ResponseView::Submit(_)) ==> {
                &&& e is Completed
                &&& s.pending.contains_key(e->Completed_0.seqnum)
                &&& t.pending == s.pending.remove(e->Completed_0.seqnum)
            }
            &&& !s.pending.contains_key(seqnum) && t.pending.contains_key(seqnum) ==> {
                &&& e matches EventView::Command(CommandView::Submit(c))
                &&& c.header.seqnum == seqnum
                &&& action == ActionView::Start(s.device->0, CommandView::Submit(c))
            }
            &&& s.pending.contains_key(seqnum) && !t.pending.contains_key(seqnum) ==> {
                ||| action is Close
                ||| e matches EventView::Completed(c) && c.seqnum == seqnum && action
                    == ActionView::Send(completion_reply(s.pending[seqnum], c))
            }
        }),
{
}

/// An URB that was unlinked while in flight is answered to the unlink, with
/// the status that it ended with, and never by itself: its place keeps the
/// header of that answer until it is done.
pub proof fn law_unlink_is_answered_when_done(s: SessionView, p: PoolView, e: EventView, seqnum: u32)
    requires
        s.pending.contains_key(seqnum),
        s.pending[seqnum] is Some,
    ensures
        ({
            let (t, _, action) = step(s, p, e);
            ||| t.pending.contains_key(seqnum) && t.pending[seqnum] == s.pending[seqnum]
            ||| t.phase is Ended
            ||| e matches EventView::Completed(c) && action == ActionView::Send(
                ret_unlink(s.pending[seqnum]->0, c.status),
            )
        }),
{
}

/// An unlink of an URB in flight cancels it once; one of an URB that is not in
/// flight, or that was unlinked before, is answered at once with status zero.
pub proof fn law_unlink(s: SessionView, p: PoolView, header: UsbIpHeaderBasic, seqnum: u32)
    requires
        s.phase is Running,
    ensures
        ({
            let reply = UsbIpHeaderBasic { command: USBIP_RET_UNLINK as u32, ..header };
            let c = CommandView::Unlink { header, unlink_seqnum: seqnum };
            let (t, q, action) = step(s, p, EventView::Command(c));
            let (_, _, again) = step(t, q, EventView::Command(c));
            &&& q == p
            &&& again == ActionView::Send(ret_unlink(reply, 0))
            &&& if s.pending.contains_key(seqnum) && s.pending[seqnum] is None {
                &&& action == ActionView::Cancel(seqnum)
                &&& t.pending == s.pending.insert(seqnum, Some(reply))
            } else {
                &&& action == ActionView::Send(ret_unlink(reply, 0))
                &&& t == s
            }
        }),
{
}

/// Everything that is sent can be written to the socket, as long as the
/// replies to the URBs can.
pub proof fn law_replies_are_serializable(s: SessionView, p: PoolView, e: EventView)
    requires
        s.valid(),
        e is Completed ==> e->Completed_0.response.serializable(),
    ensures
        step(s, p, e).2 matches ActionView::Send(reply) ==> reply.serializable(),
{
}

/// Once no more commands are read, each URB that is done leaves one less in
/// flight, and the connection closes when the last reply was sent, in the way
/// that was decided when reading failed.
pub proof fn law_draining_comes_to_an_end(s: SessionView, p: PoolView, c: CompletedView)
    requires
        s.valid(),
        s.phase is Draining,
        s.pending.contains_key(c.seqnum),
    ensures
        ({
            let (t, q, action) = step(s, p, EventView::Completed(c));
            let (u, _, last) = step(t, q, EventView::Written);
            &&& action is Send
            &&& t.phase == s.phase
            &&& t.pending.len() == s.pending.len() - 1
            &&& if t.pending.len() == 0 {
                last == ActionView::Close(s.phase->Draining_0)
            } else {
                last == ActionView::Wait && u == t
            }
        }),
{
}

/// A connection that is over stays as it is.
pub proof fn law_ended_stays_ended(s: SessionView, p: PoolView, e: EventView)
    requires
        s.phase is Ended,
    ensures
        step(s, p, e).0 == s,
        step(s, p, e).1 == p,
        step(s, p, e).2 == ActionView::Close(s.phase->Ended_0),
{
}

/// An URB that is accepted is handed to the imported device, and its reply is
/// sent when it is done, unless it was unlinked; the connection is then as it
/// was before.
pub proof fn law_urb_is_answered(s: SessionView, p: PoolView, c: SubmitView, done: CompletedView)
    requires
        s.phase is Running,
        submit_violation(s, c) is None,
        done.seqnum == c.header.seqnum,
    ensures
        ({
            let (t, q, action) = step(s, p, EventView::Command(CommandView::Submit(c)));
            let (u, r, reply) = step(t, q, EventView::Completed(done));
            &&& action == ActionView::Start(s.device->0, CommandView::Submit(c))
            &&& reply == ActionView::Send(done.response)
            &&& u == s
            &&& q == p && r == p
        }),
{
    let (t, q, _) = step(s, p, EventView::Command(CommandView::Submit(c)));
    assert(t.pending.remove(done.seqnum) =~= s.pending);
}

/// A refused URB closes the connection with the reason, and gives the device
/// back.
pub proof fn law_refused_urb_closes_the_connection(s: SessionView, p: PoolView, c: SubmitView)
    requires
        s.phase is Running,
        submit_violation(s, c) is Some,
    ensures
        step(s, p, EventView::Command(CommandView::Submit(c))) == end(
            s,
            p,
            Outcome::Failed(ConnectionError::Protocol(submit_violation(s, c)->0)),
        ),
{
}

/// Adding a device with a bus id of its own keeps the server consistent.
pub proof fn law_add_keeps_consistent(p: PoolView, sessions: Seq<SessionView>, device: DeviceView)
    requires
        consistent(p, sessions),
        position_by_id(p.available, device.bus_id, 0) is None,
        !p.used.contains_key(device.bus_id),
    ensures
        consistent(PoolView { available: p.available.push(device), ..p }, sessions),
{
    let q = PoolView { available: p.available.push(device), ..p };
    law_position_by_id(p.available, device.bus_id);
    assert forall|i: int, j: int| 0 <= i < j < q.available.len() implies (
    #[trigger] q.available[i]).bus_id != (#[trigger] q.available[j]).bus_id by {
        assert(q.available[i] == p.available[i]);
        if j < p.available.len() {
            assert(q.available[j] == p.available[j]);
        }
    }
    assert forall|i: int| 0 <= i < q.available.len() implies !q.used.contains_key(
        (#[trigger] q.available[i]).bus_id,
    ) by {
        if i < p.available.len() {
            assert(q.available[i] == p.available[i]);
        }
    }
}

/// Removing a device keeps the server consistent.
pub proof fn law_remove_keeps_consistent(p: PoolView, sessions: Seq<SessionView>, at: int)
    requires
        consistent(p, sessions),
        0 <= at < p.available.len(),
    ensures
        consistent(PoolView { available: p.available.remove(at), ..p }, sessions),
{
    let q = PoolView { available: p.available.remove(at), ..p };
    assert forall|i: int, j: int| 0 <= i < j < q.available.len() implies (
    #[trigger] q.available[i]).bus_id != (#[trigger] q.available[j]).bus_id by {
        let k = if i < at {
            i
        } else {
            i + 1
        };
        let l = if j < at {
            j
        } else {
            j + 1
        };
        assert(p.available[k].bus_id != p.available[l].bus_id);
    }
}

/// A device that a connection has imported cannot be removed.
pub proof fn law_imported_device_is_not_removed(p: PoolView, sessions: Seq<SessionView>, owner: int)
    requires
        consistent(p, sessions),
        0 <= owner < sessions.len(),
        sessions[owner].imported is Some,
    ensures
        position_by_id(p.available, sessions[owner].imported->0, 0) is None,
        p.used.contains_key(sessions[owner].imported->0),
{
    let id = sessions[owner].imported->0;
    law_position_by_id(p.available, id);
    assert(p.used.contains_key(id));
    if let Some(at) = position_by_id(p.available, id, 0) {
        assert(p.available[at].bus_id == id);
    }
}

/// An URB is handed to the imported device only, under its own `devid`, and
/// only if no other one in flight has its sequence number.
pub proof fn law_started_urbs_are_for_the_device(s: SessionView, p: PoolView, e: EventView)
    ensures
        step(s, p, e).2 matches ActionView::Start(device, command) ==> {
            &&& e == EventView::Command(command)
            &&& s.device == Some(device)
            &&& command is Submit
            &&& command->Submit_0.header.devid == device.devid()
            &&& !s.pending.contains_key(command->Submit_0.header.seqnum)
            &&& s.pending.len() < MAX_PENDING_URBS
        },
{
}

/// A connection after a history of events, each with the devices of the server
/// at that time: other connections may have changed them in between.
pub open spec fn after(history: Seq<(PoolView, EventView)>) -> SessionView
    decreases history.len(),
{
    if history.len() == 0 {
        fresh()
    } else {
        let (p, e) = history.last();
        step(after(history.drop_last()), p, e).0
    }
}

/// What the last event of a history led to.
pub open spec fn last_action(history: Seq<(PoolView, EventView)>) -> ActionView {
    let (p, e) = history.last();
    step(after(history.drop_last()), p, e).2
}

/// Whether the last event of a history started an URB with this sequence
/// number.
pub open spec fn starts_last(history: Seq<(PoolView, EventView)>, seqnum: u32) -> bool {
    last_action(history) matches ActionView::Start(_, CommandView::Submit(c)) && c.header.seqnum
        == seqnum
}

/// Whether the last event of a history was answered as the end of the URB with
/// this sequence number.
pub open spec fn answers_last(history: Seq<(PoolView, EventView)>, seqnum: u32) -> bool {
    &&& history.last().1 matches EventView::Completed(c)
    &&& c.seqnum == seqnum
    &&& last_action(history) is Send
}

/// How often an URB with this sequence number was started.
pub open spec fn starts(history: Seq<(PoolView, EventView)>, seqnum: u32) -> nat
    decreases history.len(),
{
    if history.len() == 0 {
        0
    } else {
        starts(history.drop_last(), seqnum) + if starts_last(history, seqnum) {
            1nat
        } else {
            0
        }
    }
}

/// How often the end of an URB with this sequence number was answered.
pub open spec fn answers(history: Seq<(PoolView, EventView)>, seqnum: u32) -> nat
    decreases history.len(),
{
    if history.len() == 0 {
        0
    } else {
        answers(history.drop_last(), seqnum) + if answers_last(history, seqnum) {
            1nat
        } else {
            0
        }
    }
}

/// Over the whole life of a connection, every URB that was started is answered
/// once, or is still in flight, or was in flight when the connection ended; and
/// nothing else is answered.
pub proof fn law_every_urb_is_answered_once(history: Seq<(PoolView, EventView)>, seqnum: u32)
    ensures
        after(history).phase is Ended ==> answers(history, seqnum) <= starts(history, seqnum)
            <= answers(history, seqnum) + 1,
        !(after(history).phase is Ended) ==> starts(history, seqnum) == answers(history, seqnum)
            + if after(history).pending.contains_key(seqnum) {
            1nat
        } else {
            0
        },
    decreases history.len(),
{
    if history.len() > 0 {
        let before = history.drop_last();
        law_every_urb_is_answered_once(before, seqnum);
        let (p, e) = history.last();
        let s = after(before);
        law_urbs_are_answered_once(s, p, e, seqnum);
    }
}

/// The state of a server, its connections numbered from zero, after a history
/// of events, each with the number of the connection that it happened on. What
/// happens on a connection that does not exist changes nothing.
pub open spec fn server_after(
    p: PoolView,
    sessions: Seq<SessionView>,
    history: Seq<(int, EventView)>,
) -> (PoolView, Seq<SessionView>)
    decreases history.len(),
{
    if history.len() == 0 {
        (p, sessions)
    } else {
        let (q, then) = server_after(p, sessions, history.drop_last());
        let (at, e) = history.last();
        if 0 <= at < then.len() {
            let (s, r, _) = step(then[at], q, e);
            (r, then.update(at, s))
        } else {
            (q, then)
        }
    }
}

/// However events on different connections are interleaved, the server stays
/// consistent and keeps all its devices.
pub proof fn law_every_history_is_consistent(
    p: PoolView,
    sessions: Seq<SessionView>,
    history: Seq<(int, EventView)>,
)
    requires
        consistent(p, sessions),
    ensures
        ({
            let (q, then) = server_after(p, sessions, history);
            &&& consistent(q, then)
            &&& q.devices() == p.devices()
            &&& then.len() == sessions.len()
        }),
    decreases history.len(),
{
    if history.len() > 0 {
        law_every_history_is_consistent(p, sessions, history.drop_last());
        let (q, then) = server_after(p, sessions, history.drop_last());
        let (at, e) = history.last();
        if 0 <= at < then.len() {
            law_step_keeps_consistent(q, then, at, e);
        }
    }
}

/// A client that asks for the devices gets all available ones, and nothing
/// changes.
pub proof fn law_devlist_is_answered(s: SessionView, p: PoolView, status: u32)
    requires
        s.phase is Running,
    ensures
        ({
            let (t, q, action) = step(s, p, EventView::Command(CommandView::Devlist { status }));
            &&& t == s
            &&& q == p
            &&& action matches ActionView::Send(ResponseView::Devlist { status, devices, .. })
            &&& status == 0
            &&& devices == p.available
        }),
        p.available.len() <= u32::MAX ==> ({
            let (_, _, action) = step(s, p, EventView::Command(CommandView::Devlist { status }));
            action->Send_0->device_count == p.available.len()
        }),
{
}

/// An import gives the client the first device of the name among those that are
/// available once its former one is; it is then imported under its bus id and
/// in use. Without such a device the import fails and the client has none.
/// URBs in flight stay in flight.
pub proof fn law_import_is_answered(s: SessionView, p: PoolView, status: u32, busid: Seq<u8>)
    requires
        s.phase is Running,
    ensures
        ({
            let free = p.release(s.imported);
            let (t, q, action) = step(
                s,
                p,
                EventView::Command(CommandView::Import { status, busid }),
            );
            &&& t.pending == s.pending
            &&& t.phase == s.phase
            &&& match t.device {
                Some(d) => {
                    &&& exists|at: int|
                        {
                            &&& 0 <= at < free.available.len()
                            &&& #[trigger] free.available[at] == d
                            &&& encode_utf8(d.bus_id) == busid_name(busid)
                            &&& forall|i: int|
                                0 <= i < at ==> encode_utf8((#[trigger] free.available[i]).bus_id)
                                    != busid_name(busid)
                            &&& q.available == free.available.remove(at)
                        }
                    &&& q.used == free.used.insert(d.bus_id, d)
                    &&& t.imported == Some(d.bus_id)
                    &&& action == ActionView::Send(
                        (ResponseView::Import { status: 0, device: Some(d) }),
                    )
                },
                None => {
                    &&& forall|i: int|
                        0 <= i < free.available.len() ==> encode_utf8(
                            (#[trigger] free.available[i]).bus_id,
                        ) != busid_name(busid)
                    &&& q == free
                    &&& t.imported is None
                    &&& action == ActionView::Send(
                        (ResponseView::Import { status: 1, device: None }),
                    )
                },
            }
        }),
{
    let free = p.release(s.imported);
    law_import_takes_the_first_of_the_name(free, busid);
    if let Some(at) = free.importable(busid) {
        assert(free.available[at] == step(
            s,
            p,
            EventView::Command(CommandView::Import { status, busid }),
        ).0.device->0);
    }
}

/// An URB closes the connection without a device, then with a sequence number
/// that is in flight, then for another device, and then beyond 256 URBs in
/// flight. Any other one is handed to the device, and is then in flight and not
/// unlinked; nothing else changes.
pub proof fn law_which_urbs_are_started(s: SessionView, p: PoolView, c: SubmitView)
    requires
        s.phase is Running,
    ensures
        ({
            let (t, q, action) = step(s, p, EventView::Command(CommandView::Submit(c)));
            let failed = |e: ProtocolError|
                ActionView::Close(Outcome::Failed(ConnectionError::Protocol(e)));
            match s.device {
                None => action == failed(ProtocolError::NoImportedDevice),
                Some(d) => if s.pending.contains_key(c.header.seqnum) {
                    action == failed(ProtocolError::DuplicateSeqnum(c.header.seqnum))
                } else if c.header.devid != d.devid() {
                    action == failed(
                        ProtocolError::DevidMismatch {
                            devid: c.header.devid,
                            expected: d.devid(),
                        },
                    )
                } else if s.pending.len() >= 256 {
                    action == failed(ProtocolError::TooManyPendingUrbs)
                } else {
                    &&& action == ActionView::Start(d, CommandView::Submit(c))
                    &&& t.pending == s.pending.insert(c.header.seqnum, None)
                    &&& t.device == s.device
                    &&& t.imported == s.imported
                    &&& t.phase == s.phase
                    &&& q == p
                },
            }
        }),
{
}

/// When no further command can be read, the connection is closed at once if no
/// URB is in flight. Otherwise all are cancelled, and the connection keeps its
/// device and its URBs until they are answered. It ends well if the peer closed
/// it, and with the error otherwise.
pub proof fn law_read_failures(s: SessionView, p: PoolView, error: ConnectionError)
    requires
        s.phase is Running,
    ensures
        ({
            let (t, q, action) = step(s, p, EventView::ReadFailed(error));
            let outcome = if error.kind_spec() == ErrorKind::UnexpectedEof {
                Outcome::Closed
            } else {
                Outcome::Failed(error)
            };
            if s.pending.len() == 0 {
                action == ActionView::Close(outcome)
            } else {
                &&& action == ActionView::CancelAll
                &&& t.phase == Phase::Draining(outcome)
                &&& t.pending == s.pending
                &&& t.device == s.device
                &&& t.imported == s.imported
                &&& q == p
            }
        }),
{
}

/// The kind of an error on the socket is that of the socket, and of a violation
/// that of the violation.
pub proof fn law_connection_error_kinds(kind: ErrorKind, e: ProtocolError)
    ensures
        ConnectionError::Io(kind).kind_spec() == kind,
        ConnectionError::Protocol(e).kind_spec() == e.kind_spec(),
{
}

/// A reply that could not be sent ends the connection with that error, or as
/// was decided before once no more commands are read. So does the loss of the
/// workers while URBs are in flight.
pub proof fn law_failures_end_the_connection(s: SessionView, p: PoolView, kind: ErrorKind)
    ensures
        s.phase is Running ==> step(s, p, EventView::WriteFailed(kind)).2 == ActionView::Close(
            Outcome::Failed(ConnectionError::Io(kind)),
        ),
        s.phase is Running && s.pending.len() > 0 ==> step(s, p, EventView::WorkersClosed).2
            == ActionView::Close(
            Outcome::Failed(ConnectionError::Protocol(ProtocolError::WorkersClosed)),
        ),
        s.phase is Draining ==> {
            let close = ActionView::Close(s.phase->Draining_0);
            &&& step(s, p, EventView::WriteFailed(kind)).2 == close
            &&& step(s, p, EventView::WorkersClosed).2 == close
            &&& step(s, p, EventView::DrainTimedOut).2 == close
        },
{
}

/// An URB in flight that is done is answered with its own reply, or, if it was
/// unlinked, with a reply to the unlink that carries the status of the URB; it
/// is then no longer in flight, and nothing else changes. One that is not in
/// flight changes nothing.
pub proof fn law_completions_are_answered(s: SessionView, p: PoolView, c: CompletedView)
    requires
        !(s.phase is Ended),
    ensures
        ({
            let (t, q, action) = step(s, p, EventView::Completed(c));
            &&& q == p
            &&& t.device == s.device
            &&& t.imported == s.imported
            &&& t.phase == s.phase
            &&& if s.pending.contains_key(c.seqnum) {
                &&& t.pending == s.pending.remove(c.seqnum)
                &&& s.pending[c.seqnum] is None ==> action == ActionView::Send(c.response)
                &&& s.pending[c.seqnum] matches Some(header) ==> {
                    &&& action matches ActionView::Send(
                        ResponseView::Unlink { header: h, status },
                    )
                    &&& h == header
                    &&& status == (c.status as int) % 0x1_0000_0000
                }
            } else {
                t.pending == s.pending && action == ActionView::Wait
            }
        }),
{
}

/// An unlink keeps the URB in flight and the header of the client, but for the
/// code of the reply; its answer at once has status zero.
pub proof fn law_unlinks_are_answered(
    s: SessionView,
    p: PoolView,
    header: UsbIpHeaderBasic,
    seqnum: u32,
)
    requires
        s.phase is Running,
    ensures
        ({
            let (t, q, action) = step(
                s,
                p,
                EventView::Command(CommandView::Unlink { header, unlink_seqnum: seqnum }),
            );
            &&& q == p
            &&& t.device == s.device
            &&& t.imported == s.imported
            &&& t.phase == s.phase
            &&& if s.pending.contains_key(seqnum) && s.pending[seqnum] is None {
                &&& action == ActionView::Cancel(seqnum)
                &&& t.pending.dom() == s.pending.dom()
                &&& t.pending.remove(seqnum) == s.pending.remove(seqnum)
                &&& t.pending[seqnum] is Some
                &&& t.pending[seqnum]->0.command == 4
                &&& t.pending[seqnum]->0.seqnum == header.seqnum
                &&& t.pending[seqnum]->0.devid == header.devid
                &&& t.pending[seqnum]->0.direction == header.direction
                &&& t.pending[seqnum]->0.ep == header.ep
            } else {
                &&& t.pending == s.pending
                &&& action matches ActionView::Send(ResponseView::Unlink { header: h, status })
                &&& status == 0
                &&& h.command == 4
                &&& h.seqnum == header.seqnum
                &&& h.devid == header.devid
                &&& h.direction == header.direction
                &&& h.ep == header.ep
            }
        }),
{
    let t = step(
        s,
        p,
        EventView::Command(CommandView::Unlink { header, unlink_seqnum: seqnum }),
    ).0;
    if s.pending.contains_key(seqnum) && s.pending[seqnum] is None {
        assert(t.pending.dom() =~= s.pending.dom());
        assert(t.pending.remove(seqnum) =~= s.pending.remove(seqnum));
    }
}

/// Nothing happens on a reply that was sent while commands are read, on the loss
/// of the workers while no URB is in flight, on a deadline that was not set,
/// and on commands or failures to read them once none are read any more; and a reply that was sent then
/// closes the connection only if no URB is left.
pub proof fn law_nothing_happens_unasked(
    s: SessionView,
    p: PoolView,
    c: CommandView,
    error: ConnectionError,
)
    ensures
        s.phase is Running ==> {
            &&& step(s, p, EventView::Written) == (s, p, ActionView::Wait)
            &&& step(s, p, EventView::DrainTimedOut) == (s, p, ActionView::Wait)
            &&& s.pending.len() == 0 ==> step(s, p, EventView::WorkersClosed) == (
                s,
                p,
                ActionView::Wait,
            )
        },
        s.phase is Draining ==> {
            &&& step(s, p, EventView::Command(c)) == (s, p, ActionView::Wait)
            &&& step(s, p, EventView::ReadFailed(error)) == (s, p, ActionView::Wait)
            &&& s.pending.len() > 0 ==> step(s, p, EventView::Written) == (s, p, ActionView::Wait)
            &&& s.pending.len() == 0 ==> step(s, p, EventView::Written).2 == ActionView::Close(
                s.phase->Draining_0,
            )
        },
{
}

/// A connection that is closed has no device and no URB in flight, and the pool
/// is as if its device had been released.
pub proof fn law_closed_connections_hold_nothing(s: SessionView, p: PoolView, e: EventView)
    requires
        !(s.phase is Ended),
        step(s, p, e).2 is Close,
    ensures
        step(s, p, e).0.device is None,
        step(s, p, e).0.imported is None,
        step(s, p, e).0.pending == Map::<u32, Option<UsbIpHeaderBasic>>::empty(),
        step(s, p, e).0.phase == Phase::Ended(step(s, p, e).2->Close_0),
        step(s, p, e).1 == p.release(s.imported),
{
}

/// A new connection reads commands and holds nothing.
pub proof fn law_new_connections_hold_nothing()
    ensures
        fresh().device is None,
        fresh().imported is None,
        fresh().pending == Map::<u32, Option<UsbIpHeaderBasic>>::empty(),
        fresh().phase is Running,
{
}

/// What happens on a connection, and what is to be done on it, is taken for
/// what it is.
pub proof fn law_events_and_actions_are_taken_as_they_are(
    e: Event,
    a: Action,
    c: CompletedSubmit,
)
    ensures
        match e {
            Event::Command(c) => e@ == EventView::Command(c@),
            Event::ReadFailed(error) => e@ == EventView::ReadFailed(error),
            Event::Completed(c) => e@ == EventView::Completed(c@),
            Event::WorkersClosed => e@ is WorkersClosed,
            Event::Written => e@ is Written,
            Event::WriteFailed(kind) => e@ == EventView::WriteFailed(kind),
            Event::DrainTimedOut => e@ is DrainTimedOut,
        },
        match a {
            Action::Wait => a@ is Wait,
            Action::Send(r) => a@ == ActionView::Send(r@),
            Action::Start(d, c) => a@ == ActionView::Start(d@, c@),
            Action::Cancel(seqnum) => a@ == ActionView::Cancel(seqnum),
            Action::CancelAll => a@ is CancelAll,
            Action::Close(outcome) => a@ == ActionView::Close(outcome),
        },
        c@.seqnum == c.seqnum,
        c@.status == c.status,
        c@.response == c.response@,
{
}

} // verus!
