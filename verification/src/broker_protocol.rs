use vstd::prelude::*;

use crate::license_policy::ErrorCode;
use crate::privileges::PrivilegePolicy;
use crate::text::text_eq;
use crate::text_map::{entries_map, keys_ascending, TextMap};

verus! {

/// The largest frame exchanged with the privilege broker, newline aside.
pub const FRAME_LIMIT: u64 = 1048576;

/// How many lifecycle events of one program may wait to be handled.
pub const BROKER_EVENT_QUEUE_CAPACITY: usize = 2;

/// Why the privilege broker cannot be used as asked.
#[derive(PartialEq, Eq, Structural, Clone, Copy, Debug)]
pub enum BrokerError {
    /// An elevated program was to start unattended without an administrator session.
    PrivilegeRequired,
    /// The broker connection closed.
    ConnectionLost,
    /// An event from the broker was oversized or not a whole line.
    InvalidEvent,
    /// A request to the broker is larger than a frame may be.
    RequestTooLarge,
    /// A program's lifecycle event queue overflowed.
    EventQueueOverflow,
    /// The broker repeated its handshake.
    RepeatedHandshake,
    /// The broker sent a lifecycle event that does not fit the program.
    UnexpectedEvent,
    /// The broker session ended, so nothing more can be registered with it.
    SessionUnavailable,
    /// The program is registered with the broker already.
    AlreadyRegistered,
}

impl BrokerError {
    /// The error code under which the error is reported.
    pub fn code(&self) -> (code: ErrorCode)
        ensures
            code == match *self {
                BrokerError::PrivilegeRequired => ErrorCode::PrivilegeRequired,
                BrokerError::ConnectionLost | BrokerError::SessionUnavailable => ErrorCode::PrivilegeBrokerConnectionLost,
                BrokerError::RequestTooLarge => ErrorCode::PrivilegeConfigUnsafe,
                _ => ErrorCode::PrivilegeBrokerFailed,
            },
    {
        match self {
            BrokerError::PrivilegeRequired => ErrorCode::PrivilegeRequired,
            BrokerError::ConnectionLost | BrokerError::SessionUnavailable => ErrorCode::PrivilegeBrokerConnectionLost,
            BrokerError::RequestTooLarge => ErrorCode::PrivilegeConfigUnsafe,
            _ => ErrorCode::PrivilegeBrokerFailed,
        }
    }

    /// The message shown for the error.
    pub fn message(&self) -> (text: &'static str)
        ensures
            text@ == match *self {
                BrokerError::PrivilegeRequired => "This program requires an active administrator session and was skipped during background startup"@,
                BrokerError::ConnectionLost => "The privilege broker connection closed unexpectedly"@,
                BrokerError::InvalidEvent => "The privilege broker sent an invalid or oversized event"@,
                BrokerError::RequestTooLarge => "The privileged launch manifest exceeds the broker limit"@,
                BrokerError::EventQueueOverflow => "The privilege broker overflowed a process lifecycle event queue"@,
                BrokerError::RepeatedHandshake => "The privilege broker repeated its session handshake"@,
                BrokerError::UnexpectedEvent => "The privilege broker sent an unexpected lifecycle event"@,
                BrokerError::SessionUnavailable => "The privilege broker session is no longer available"@,
                BrokerError::AlreadyRegistered => "The privileged program already has an active broker registration"@,
            },
    {
        match self {
            BrokerError::PrivilegeRequired => "This program requires an active administrator session and was skipped during background startup",
            BrokerError::ConnectionLost => "The privilege broker connection closed unexpectedly",
            BrokerError::InvalidEvent => "The privilege broker sent an invalid or oversized event",
            BrokerError::RequestTooLarge => "The privileged launch manifest exceeds the broker limit",
            BrokerError::EventQueueOverflow => "The privilege broker overflowed a process lifecycle event queue",
            BrokerError::RepeatedHandshake => "The privilege broker repeated its session handshake",
            BrokerError::UnexpectedEvent => "The privilege broker sent an unexpected lifecycle event",
            BrokerError::SessionUnavailable => "The privilege broker session is no longer available",
            BrokerError::AlreadyRegistered => "The privileged program already has an active broker registration",
        }
    }
}

/// Whether a launch may go ahead as to authorization: a standard launch always may; one that may
/// need elevation must be interactive, or find an administrator session open already, so that no
/// authorization prompt opens while nobody is there.
pub fn ensure_authorization_mode(policy: PrivilegePolicy, interactive: bool, session_active: bool) -> (allowed: Result<
    (),
    BrokerError,
>)
    ensures
        allowed is Ok <==> (policy == PrivilegePolicy::Standard || interactive || session_active),
        allowed is Err ==> allowed == Err::<(), BrokerError>(BrokerError::PrivilegeRequired),
{
    if policy == PrivilegePolicy::Standard {
        return Ok(());
    }
    if !interactive && !session_active {
        return Err(BrokerError::PrivilegeRequired);
    }
    Ok(())
}

/// Checks a line read from the broker: nothing read means the connection closed; a line longer
/// than a frame, or one that does not end in a newline, is refused.
pub fn check_event_frame(line: &str, read: usize) -> (checked: Result<(), BrokerError>)
    ensures
        read == 0 ==> checked == Err::<(), BrokerError>(BrokerError::ConnectionLost),
        read > 0 && (read > FRAME_LIMIT || line@.len() == 0 || line@.last() != '\n') ==> checked == Err::<
            (),
            BrokerError,
        >(BrokerError::InvalidEvent),
        read > 0 && read <= FRAME_LIMIT && line@.len() > 0 && line@.last() == '\n' ==> checked is Ok,
{
    if read == 0 {
        return Err(BrokerError::ConnectionLost);
    }
    let n = line.unicode_len();
    if read as u64 > FRAME_LIMIT || n == 0 || line.get_char(n - 1) != '\n' {
        return Err(BrokerError::InvalidEvent);
    }
    Ok(())
}

/// Frames a serialised request for the broker: refused when it is larger than a frame; else the
/// request and a newline.
pub fn frame_request(bytes: Vec<u8>) -> (frame: Result<Vec<u8>, BrokerError>)
    ensures
        bytes@.len() > FRAME_LIMIT ==> frame == Err::<Vec<u8>, BrokerError>(BrokerError::RequestTooLarge),
        bytes@.len() <= FRAME_LIMIT ==> (frame matches Ok(f) && f@ == bytes@.push(10u8)),
{
    if bytes.len() as u64 > FRAME_LIMIT {
        return Err(BrokerError::RequestTooLarge);
    }
    let mut frame = bytes;
    frame.push(10u8);
    Ok(frame)
}

/// A lifecycle event from the broker, as far as routing it goes.
pub enum BrokerEventKind {
    Hello,
    Started { program_id: String },
    Exited { program_id: String },
    Failed { program_id: Option<String> },
}

/// Where an event from the broker goes.
#[derive(Debug)]
pub enum EventRoute {
    /// To the program's lifecycle queue.
    Program(String),
    /// It ends the whole session: the broker failed.
    FailSession,
    /// It ends the whole session: the broker broke the protocol.
    ProtocolViolation(BrokerError),
}

/// Routes an event from the broker: an event about a program goes to that program; a failure
/// about no program ends the session; a repeated handshake breaks the protocol.
pub fn route_event(event: &BrokerEventKind) -> (route: EventRoute)
    ensures
        match *event {
            BrokerEventKind::Started { program_id } => route == EventRoute::Program(program_id),
            BrokerEventKind::Exited { program_id } => route == EventRoute::Program(program_id),
            BrokerEventKind::Failed { program_id: Some(p) } => route == EventRoute::Program(p),
            BrokerEventKind::Failed { program_id: None } => route == EventRoute::FailSession,
            BrokerEventKind::Hello => route == EventRoute::ProtocolViolation(BrokerError::RepeatedHandshake),
        },
{
    match event {
        BrokerEventKind::Started { program_id } => EventRoute::Program(program_id.clone()),
        BrokerEventKind::Exited { program_id } => EventRoute::Program(program_id.clone()),
        BrokerEventKind::Failed { program_id: Some(p) } => EventRoute::Program(p.clone()),
        BrokerEventKind::Failed { program_id: None } => EventRoute::FailSession,
        BrokerEventKind::Hello => EventRoute::ProtocolViolation(BrokerError::RepeatedHandshake),
    }
}

/// What waiting for a program's exit makes of the next lifecycle event: its exit, the broker's
/// failure, or an unexpected event.
#[derive(PartialEq, Eq, Structural, Clone, Copy, Debug)]
pub enum ExitOutcome {
    Exited,
    BrokerFailed,
    Unexpected,
}

/// Whether the next lifecycle event of a program ends the wait for its exit, and how.
pub fn event_exit(event: &BrokerEventKind, expected_program: &str) -> (outcome: ExitOutcome)
    ensures
        outcome == match *event {
            BrokerEventKind::Exited { program_id } => if program_id@ == expected_program@ {
                ExitOutcome::Exited
            } else {
                ExitOutcome::Unexpected
            },
            BrokerEventKind::Failed { .. } => ExitOutcome::BrokerFailed,
            _ => ExitOutcome::Unexpected,
        },
{
    match event {
        BrokerEventKind::Exited { program_id } => if text_eq(program_id.as_str(), expected_program) {
            ExitOutcome::Exited
        } else {
            ExitOutcome::Unexpected
        },
        BrokerEventKind::Failed { .. } => ExitOutcome::BrokerFailed,
        _ => ExitOutcome::Unexpected,
    }
}

/// What handing an event to a program's lifecycle queue gave.
#[derive(PartialEq, Eq, Structural, Clone, Copy, Debug)]
pub enum QueueSend {
    Sent,
    /// The program no longer listens.
    Closed,
    /// The queue is full.
    Full,
}

/// An event that the program no longer listens for is dropped; a full queue fails the session.
pub fn queue_send_outcome(send: QueueSend) -> (outcome: Result<(), BrokerError>)
    ensures
        outcome == if send == QueueSend::Full {
            Err::<(), BrokerError>(BrokerError::EventQueueOverflow)
        } else {
            Ok::<(), BrokerError>(())
        },
{
    match send {
        QueueSend::Full => Err(BrokerError::EventQueueOverflow),
        _ => Ok(()),
    }
}


/// The programs that a broker session relays lifecycle events for: at most one registration per
/// program, and none once the session ended.
pub struct BrokerRegistry {
    alive: bool,
    programs: TextMap,
}

impl BrokerRegistry {
    /// Whether the session is still usable.
    pub closed spec fn alive(&self) -> bool {
        self.alive
    }

    /// The programs registered.
    pub closed spec fn registered(&self) -> Set<Seq<char>> {
        self.programs@.dom()
    }

    /// The registry's invariant.
    pub closed spec fn well_formed(&self) -> bool {
        self.programs.well_formed() && (!self.alive ==> self.programs@.dom() == Set::<Seq<char>>::empty())
    }

    /// A live session with no program registered.
    pub fn new() -> (registry: Self)
        ensures
            registry.well_formed(),
            registry.alive(),
            registry.registered() == Set::<Seq<char>>::empty(),
    {
        BrokerRegistry { alive: true, programs: TextMap::new() }
    }

    /// Registers `program` for its lifecycle events: refused once the session ended, and while
    /// the program is registered already; nothing changes when it is refused.
    pub fn register(&mut self, program: &str) -> (registered: Result<(), BrokerError>)
        requires
            old(self).well_formed(),
        ensures
            final(self).well_formed(),
            final(self).alive() == old(self).alive(),
            !old(self).alive() ==> registered == Err::<(), BrokerError>(BrokerError::SessionUnavailable)
                && final(self).registered() == old(self).registered(),
            old(self).alive() && old(self).registered().contains(program@) ==> registered == Err::<(), BrokerError>(
                BrokerError::AlreadyRegistered,
            ) && final(self).registered() == old(self).registered(),
            old(self).alive() && !old(self).registered().contains(program@) ==> registered is Ok
                && final(self).registered() == old(self).registered().insert(program@),
    {
        if !self.alive {
            return Err(BrokerError::SessionUnavailable);
        }
        if self.programs.contains(program) {
            return Err(BrokerError::AlreadyRegistered);
        }
        self.programs.insert(program.to_owned(), String::new());
        proof {
            assert(self.programs@.dom() =~= old(self).programs@.dom().insert(program@));
        }
        Ok(())
    }

    /// Ends the registration of `program`.
    pub fn unregister(&mut self, program: &str)
        requires
            old(self).well_formed(),
        ensures
            final(self).well_formed(),
            final(self).alive() == old(self).alive(),
            final(self).registered() == old(self).registered().remove(program@),
    {
        self.programs.remove(program);
        proof {
            assert(self.programs@.dom() =~= old(self).programs@.dom().remove(program@));
            if !self.alive {
                assert(old(self).programs@.dom().remove(program@) =~= Set::<Seq<char>>::empty());
            }
        }
    }

    /// Whether an event for `program` is relayed; events for other programs are dropped.
    pub fn is_registered(&self, program: &str) -> (registered: bool)
        requires
            self.well_formed(),
        ensures
            registered == self.registered().contains(program@),
    {
        self.programs.contains(program)
    }

    /// Ends the session after a failure: every registration ends, and the programs that were
    /// registered are returned, so that each is told of the failure.
    pub fn fail_all(&mut self) -> (failed: Vec<String>)
        requires
            old(self).well_formed(),
        ensures
            final(self).well_formed(),
            !final(self).alive(),
            final(self).registered() == Set::<Seq<char>>::empty(),
            forall|p: Seq<char>| old(self).registered().contains(p) <==> exists|i: int| 0 <= i < failed@.len() && #[trigger] failed@[i]@ == p,
    {
        let entries = self.programs.entries();
        let mut failed: Vec<String> = Vec::new();
        let mut i: usize = 0;
        while i < entries.len()
            invariant
                i <= entries@.len(),
                failed@.len() == i,
                forall|j: int| 0 <= j < i ==> #[trigger] failed@[j]@ == entries@[j].0@,
            decreases entries@.len() - i,
        {
            failed.push(entries[i].0.clone());
            i = i + 1;
        }
        proof {
            let m = entries_map(entries@);
            assert forall|p: Seq<char>| old(self).registered().contains(p) <==> exists|k: int|
                0 <= k < failed@.len() && #[trigger] failed@[k]@ == p by {
                if m.dom().contains(p) {
                    let k = choose|k: int| 0 <= k < entries@.len() && entries@[k].0@ == p;
                    assert(failed@[k]@ == p);
                }
                if exists|k: int| 0 <= k < failed@.len() && #[trigger] failed@[k]@ == p {
                    let k = choose|k: int| 0 <= k < failed@.len() && #[trigger] failed@[k]@ == p;
                    assert(entries@[k].0@ == p);
                    assert(m.dom().contains(p));
                }
            }
        }
        self.alive = false;
        self.programs.clear();
        failed
    }
}

} // verus!
