use vstd::prelude::*;

use crate::text::{decimal, push_char, push_decimal, push_text};

verus! {

/// The size at which a log is rotated, for the application log and for program output.
pub const LOG_MAX_BYTES: u64 = 10485760;

/// How many earlier application logs are kept.
pub const RETAINED_APP_ARCHIVES: u64 = 5;

/// How many earlier output logs of a program are kept.
pub const RETAINED_OUTPUT_FILES: u64 = 3;

/// The line that starts each program session in its output logs.
pub const SESSION_MARKER: &'static str = "--- Camellia Nexus session started ---";

/// The name of the `index`-th earlier log: the log's name, a dot and the number.
pub open spec fn numbered_name(name: Seq<char>, index: u64) -> Seq<char> {
    name + "."@ + decimal(index as nat)
}

/// The name of the `index`-th earlier log.
pub fn numbered(name: &str, index: u64) -> (numbered: String)
    ensures
        numbered@ == numbered_name(name@, index),
{
    let mut text = name.to_string();
    push_char(&mut text, '.');
    push_decimal(&mut text, index);
    proof {
        reveal_strlit(".");
    }
    assert(name@ + "."@ + decimal(index as nat) =~= name@ + seq!['.'] + decimal(index as nat));
    text
}

/// One file operation of a log rotation.
pub enum RotationStep {
    /// Delete the file when it exists.
    Remove(String),
    /// Move a file that exists to the other name, replacing what is there.
    Move(String, String),
}

pub open spec fn step_view(step: RotationStep) -> (bool, Seq<char>, Seq<char>) {
    match step {
        RotationStep::Remove(name) => (false, name@, Seq::empty()),
        RotationStep::Move(from, to) => (true, from@, to@),
    }
}

pub open spec fn steps_view(steps: Seq<RotationStep>) -> Seq<(bool, Seq<char>, Seq<char>)> {
    Seq::new(steps.len(), |i: int| step_view(steps[i]))
}

/// The rotation of a log that keeps `kept` earlier files: the oldest is deleted, each other one
/// moves one number up, oldest first, and the log itself becomes the first.
pub open spec fn rotation(name: Seq<char>, kept: u64) -> Seq<(bool, Seq<char>, Seq<char>)> {
    seq![(false, numbered_name(name, kept), Seq::<char>::empty())] + Seq::new(
        kept as nat,
        |i: int|
            if i < kept - 1 {
                (true, numbered_name(name, (kept - 1 - i) as u64), numbered_name(name, (kept - i) as u64))
            } else {
                (true, name, numbered_name(name, 1))
            },
    )
}

/// A rotation never makes an earlier log past the ones it keeps: it deletes only the oldest
/// kept one, and every file it moves goes to one of the `kept` numbered names, each from the
/// name just before it, so at most `kept` earlier logs ever remain.
pub proof fn lemma_rotation_keeps_at_most(name: Seq<char>, kept: u64)
    requires
        1 <= kept,
    ensures
        rotation(name, kept).len() == kept + 1,
        rotation(name, kept)[0] == (false, numbered_name(name, kept), Seq::<char>::empty()),
        forall|i: int|
            1 <= i <= kept ==> {
                &&& (#[trigger] rotation(name, kept)[i]).0
                &&& rotation(name, kept)[i].2 == numbered_name(name, (kept + 1 - i) as u64)
                &&& 1 <= kept + 1 - i <= kept
                &&& rotation(name, kept)[i].1 == if i < kept {
                    numbered_name(name, (kept - i) as u64)
                } else {
                    name
                }
            },
{
}

/// The file operations that rotate a log keeping `kept` earlier files (at least one).
pub fn rotation_steps(name: &str, kept: u64) -> (steps: Vec<RotationStep>)
    requires
        1 <= kept,
    ensures
        steps_view(steps@) == rotation(name@, kept),
{
    let mut steps: Vec<RotationStep> = Vec::new();
    steps.push(RotationStep::Remove(numbered(name, kept)));
    let mut index: u64 = kept - 1;
    let ghost expected = rotation(name@, kept);
    assert(steps_view(steps@) =~= expected.subrange(0, 1));
    while index >= 1
        invariant
            1 <= kept,
            index < kept,
            expected == rotation(name@, kept),
            steps_view(steps@) == expected.subrange(0, (kept - index) as int),
        decreases index,
    {
        let step = RotationStep::Move(numbered(name, index), numbered(name, index + 1));
        let ghost before = steps_view(steps@);
        steps.push(step);
        assert(steps_view(steps@) =~= before.push(step_view(step)));
        assert(expected[(kept - index) as int] == step_view(step));
        assert(expected.subrange(0, (kept - index + 1) as int) =~= expected.subrange(0, (kept - index) as int).push(
            expected[(kept - index) as int],
        ));
        index = index - 1;
    }
    let last = RotationStep::Move(name.to_string(), numbered(name, 1));
    let ghost before = steps_view(steps@);
    steps.push(last);
    assert(steps_view(steps@) =~= before.push(step_view(last)));
    assert(expected[kept as int] == step_view(last));
    assert(expected.subrange(0, kept as int + 1) =~= expected);
    steps
}

/// Whether the application log is rotated before a write of `len` bytes: only a log that holds
/// something, and would grow past the limit.
pub fn app_log_rotates_before_write(bytes: u64, len: u64) -> (rotates: bool)
    ensures
        rotates == (bytes > 0 && bytes + len > LOG_MAX_BYTES),
{
    bytes > 0 && bytes.saturating_add(len) > LOG_MAX_BYTES
}

/// `a + b`, or the largest `u64` where that is more.
pub open spec fn saturating_sum(a: u64, b: u64) -> u64 {
    if a + b > u64::MAX {
        u64::MAX
    } else {
        (a + b) as u64
    }
}

/// The application log after a write of `len` bytes, as (bytes in the current log, numbered
/// earlier logs present): when the write rotates, the current log becomes the first earlier one,
/// at most the retained number stay, and the write starts a new log.
pub open spec fn app_log_step(state: (u64, u64), len: u64) -> (u64, u64) {
    if state.0 > 0 && state.0 + len > LOG_MAX_BYTES {
        (len, if state.1 < RETAINED_APP_ARCHIVES {
            (state.1 + 1) as u64
        } else {
            RETAINED_APP_ARCHIVES
        })
    } else {
        (saturating_sum(state.0, len), state.1)
    }
}

/// The application log after writes of the lengths in `writes`, in order.
pub open spec fn app_log_after(state: (u64, u64), writes: Seq<u64>) -> (u64, u64)
    decreases writes.len(),
{
    if writes.len() == 0 {
        state
    } else {
        app_log_step(app_log_after(state, writes.drop_last()), writes.last())
    }
}

/// However many writes go to the application log, at most the retained number of earlier logs
/// are ever present, and a log within the limit stays within it while no single write is larger
/// than the limit.
pub proof fn lemma_app_log_bounded(state: (u64, u64), writes: Seq<u64>)
    requires
        state.1 <= RETAINED_APP_ARCHIVES,
    ensures
        app_log_after(state, writes).1 <= RETAINED_APP_ARCHIVES,
        state.0 <= LOG_MAX_BYTES && (forall|i: int| 0 <= i < writes.len() ==> #[trigger] writes[i] <= LOG_MAX_BYTES)
            ==> app_log_after(state, writes).0 <= LOG_MAX_BYTES,
    decreases writes.len(),
{
    if writes.len() > 0 {
        let rest = writes.drop_last();
        assert forall|i: int| 0 <= i < rest.len() implies rest[i] == writes[i] by {}
        lemma_app_log_bounded(state, rest);
        if forall|i: int| 0 <= i < writes.len() ==> #[trigger] writes[i] <= LOG_MAX_BYTES {
            assert(writes[writes.len() - 1] <= LOG_MAX_BYTES);
        }
    }
}

/// What the application log writer knows of its files: the bytes in the current log, and how
/// many numbered earlier logs are present.
pub struct AppLogState {
    bytes: u64,
    archives: u64,
}

impl AppLogState {
    pub closed spec fn view(&self) -> (u64, u64) {
        (self.bytes, self.archives)
    }

    /// No more earlier logs are present than are retained.
    pub closed spec fn well_formed(&self) -> bool {
        self.archives <= RETAINED_APP_ARCHIVES
    }

    /// The writer's state as it opens a log of `bytes` bytes beside `archives` earlier ones;
    /// whether the log is rotated at once, because it reached the limit.
    pub fn open(bytes: u64, archives: u64) -> (opened: (Self, bool))
        requires
            archives <= RETAINED_APP_ARCHIVES,
        ensures
            opened.0.well_formed(),
            opened.1 == (bytes >= LOG_MAX_BYTES),
            opened.0@ == if opened.1 {
                (0u64, if archives < RETAINED_APP_ARCHIVES {
                    (archives + 1) as u64
                } else {
                    RETAINED_APP_ARCHIVES
                })
            } else {
                (bytes, archives)
            },
    {
        if app_log_rotates_on_open(bytes) {
            let archives = if archives < RETAINED_APP_ARCHIVES {
                archives + 1
            } else {
                RETAINED_APP_ARCHIVES
            };
            (AppLogState { bytes: 0, archives }, true)
        } else {
            (AppLogState { bytes, archives }, false)
        }
    }

    /// Records a write of `len` bytes; whether the log is rotated before it.
    pub fn record_write(&mut self, len: u64) -> (rotated: bool)
        requires
            old(self).well_formed(),
        ensures
            final(self).well_formed(),
            rotated == (old(self)@.0 > 0 && old(self)@.0 + len > LOG_MAX_BYTES),
            final(self)@ == app_log_step(old(self)@, len),
    {
        let rotated = app_log_rotates_before_write(self.bytes, len);
        if rotated {
            if self.archives < RETAINED_APP_ARCHIVES {
                self.archives = self.archives + 1;
            }
            self.bytes = len;
        } else {
            self.bytes = self.bytes.saturating_add(len);
        }
        rotated
    }

    /// How many numbered earlier logs are present.
    pub fn archives(&self) -> (count: u64)
        ensures
            count == self@.1,
    {
        self.archives
    }

    /// How many bytes the current log holds.
    pub fn bytes(&self) -> (count: u64)
        ensures
            count == self@.0,
    {
        self.bytes
    }
}

/// Whether the application log is rotated as it is opened: it reached the limit.
pub fn app_log_rotates_on_open(bytes: u64) -> (rotates: bool)
    ensures
        rotates == (bytes >= LOG_MAX_BYTES),
{
    bytes >= LOG_MAX_BYTES
}

/// Whether program output is rotated before a chunk of `len` bytes is written.
pub fn output_rotates_before_write(bytes: u64, len: u64) -> (rotates: bool)
    ensures
        rotates == (bytes + len > LOG_MAX_BYTES),
{
    bytes.saturating_add(len) > LOG_MAX_BYTES
}

/// What is done with a program's output logs when a session starts.
#[derive(PartialEq, Eq, Structural, Clone, Copy, Debug)]
pub enum SessionLogs {
    /// Delete the log and its earlier files.
    Clear,
    /// Rotate the log first, as it is nearly full.
    Rotate,
    /// Append to the log.
    Keep,
}

/// How a program's output log starts a session: cleared under the clearing policy; rotated when
/// it is within 256 bytes of the limit; kept otherwise.
pub fn session_logs(clear_on_start: bool, existing_bytes: Option<u64>) -> (plan: SessionLogs)
    ensures
        plan == if clear_on_start {
            SessionLogs::Clear
        } else if existing_bytes matches Some(n) && n >= LOG_MAX_BYTES - 256 {
            SessionLogs::Rotate
        } else {
            SessionLogs::Keep
        },
{
    if clear_on_start {
        return SessionLogs::Clear;
    }
    match existing_bytes {
        Some(n) => if n >= LOG_MAX_BYTES - 256 {
            SessionLogs::Rotate
        } else {
            SessionLogs::Keep
        },
        None => SessionLogs::Keep,
    }
}

/// The text written to an output log when a session starts: the marker line, after an empty
/// line when the log already holds something.
pub fn session_header(existing_bytes: u64) -> (header: String)
    ensures
        header@ == if existing_bytes > 0 {
            seq!['\n'] + SESSION_MARKER@ + seq!['\n']
        } else {
            SESSION_MARKER@ + seq!['\n']
        },
{
    let mut header = String::new();
    proof {
        reveal_strlit("");
    }
    if existing_bytes > 0 {
        push_char(&mut header, '\n');
    }
    push_text(&mut header, SESSION_MARKER);
    push_char(&mut header, '\n');
    header
}

/// Keeps the first error met while program output is captured, so that capturing goes on and
/// reports it at the end.
pub fn remember_first_error(first: &mut Option<String>, error: String)
    ensures
        *final(first) == match *old(first) {
            Some(e) => Some(e),
            None => Some(error),
        },
{
    if first.is_none() {
        *first = Some(error);
    }
}

} // verus!
