use vstd::prelude::*;

use crate::config_sources::enabled_positions;
use crate::license_policy::ErrorCode;
use crate::managed::ConfigSource;
use crate::privileges::{PrivilegePolicy, PrivilegeRequirement};
use crate::sorted_texts::texts;
use crate::text::text_eq;

verus! {

/// Why a configuration refresh may not start.
#[derive(PartialEq, Eq, Structural, Clone, Copy, Debug)]
pub enum RefreshRefusal {
    /// The application is shutting down; no refresh starts any more.
    ShuttingDown,
    /// A refresh of the same program is under way.
    Busy,
}

impl RefreshRefusal {
    /// The error code under which the refusal is reported.
    pub fn code(&self) -> (code: ErrorCode)
        ensures
            code == match *self {
                RefreshRefusal::ShuttingDown => ErrorCode::InvalidState,
                RefreshRefusal::Busy => ErrorCode::ProgramBusy,
            },
    {
        match self {
            RefreshRefusal::ShuttingDown => ErrorCode::InvalidState,
            RefreshRefusal::Busy => ErrorCode::ProgramBusy,
        }
    }

    /// The message shown for the refusal.
    pub fn message(&self) -> (text: &'static str)
        ensures
            text@ == match *self {
                RefreshRefusal::ShuttingDown => "Application shutdown is in progress"@,
                RefreshRefusal::Busy => "Configuration sources are already being updated"@,
            },
    {
        match self {
            RefreshRefusal::ShuttingDown => "Application shutdown is in progress",
            RefreshRefusal::Busy => "Configuration sources are already being updated",
        }
    }
}

spec fn unique(s: Seq<Seq<char>>) -> bool {
    forall|i: int, j: int| 0 <= i < j < s.len() ==> #[trigger] s[i] != #[trigger] s[j]
}

spec fn completion_keys(c: Seq<(String, u64)>) -> Seq<Seq<char>> {
    Seq::new(c.len(), |i: int| c[i].0@)
}

spec fn key_index(c: Seq<(String, u64)>, id: Seq<char>) -> int {
    choose|i: int| 0 <= i < c.len() && c[i].0@ == id
}

spec fn completion_map(c: Seq<(String, u64)>) -> Map<Seq<char>, u64> {
    Map::new(
        |id: Seq<char>| exists|i: int| 0 <= i < c.len() && c[i].0@ == id,
        |id: Seq<char>| c[key_index(c, id)].1,
    )
}

proof fn lemma_completion_index(c: Seq<(String, u64)>, i: int)
    requires
        unique(completion_keys(c)),
        0 <= i < c.len(),
    ensures
        completion_map(c).contains_key(c[i].0@),
        completion_map(c)[c[i].0@] == c[i].1,
{
    let id = c[i].0@;
    assert(exists|x: int| 0 <= x < c.len() && c[x].0@ == id);
    let k = key_index(c, id);
    assert(c[k].0@ == id);
    assert(completion_keys(c)[k] == c[k].0@ && completion_keys(c)[i] == c[i].0@);
    assert(completion_map(c).contains_key(id));
    assert(completion_map(c)[id] == c[k].1);
    if k != i {
        if k < i {
            assert(completion_keys(c)[k] != completion_keys(c)[i]);
        } else {
            assert(completion_keys(c)[i] != completion_keys(c)[k]);
        }
    }
}

/// Which configuration refreshes are under way, when each program's last one completed, and
/// whether the application is shutting down; at most one refresh of a program runs at a time,
/// and none starts once shutdown has begun.
pub struct RefreshCoordinator {
    active: Vec<String>,
    completed: Vec<(String, u64)>,
    shutdown_requested: bool,
}

impl RefreshCoordinator {
    /// The programs whose refresh is under way.
    pub closed spec fn active(&self) -> Set<Seq<char>> {
        texts(self.active@).to_set()
    }

    /// When each program's last refresh completed (ms).
    pub closed spec fn completions(&self) -> Map<Seq<char>, u64> {
        completion_map(self.completed@)
    }

    /// Whether shutdown has begun.
    pub closed spec fn shutting_down(&self) -> bool {
        self.shutdown_requested
    }

    pub closed spec fn well_formed(&self) -> bool {
        &&& unique(texts(self.active@))
        &&& unique(completion_keys(self.completed@))
    }

    /// A coordinator with nothing under way.
    pub fn new() -> (coordinator: Self)
        ensures
            coordinator.well_formed(),
            coordinator.active() == Set::<Seq<char>>::empty(),
            coordinator.completions() == Map::<Seq<char>, u64>::empty(),
            !coordinator.shutting_down(),
    {
        let c = RefreshCoordinator { active: Vec::new(), completed: Vec::new(), shutdown_requested: false };
        assert(texts(c.active@).to_set() =~= Set::<Seq<char>>::empty());
        assert(completion_map(c.completed@) =~= Map::<Seq<char>, u64>::empty());
        c
    }

    fn active_position(&self, id: &str) -> (found: Option<usize>)
        ensures
            match found {
                Some(i) => i < self.active@.len() && self.active@[i as int]@ == id@,
                None => !self.active().contains(id@),
            },
    {
        let mut i: usize = 0;
        while i < self.active.len()
            invariant
                i <= self.active@.len(),
                forall|j: int| 0 <= j < i ==> #[trigger] self.active@[j]@ != id@,
            decreases self.active@.len() - i,
        {
            if text_eq(self.active[i].as_str(), id) {
                return Some(i);
            }
            i = i + 1;
        }
        proof {
            if texts(self.active@).to_set().contains(id@) {
                let k = choose|k: int| 0 <= k < texts(self.active@).len() && texts(self.active@)[k] == id@;
                assert(self.active@[k]@ == id@);
            }
        }
        None
    }

    /// Starts a refresh of program `id`: refused once shutdown has begun, and while a refresh of
    /// the same program is under way.
    pub fn try_acquire(&mut self, id: &str) -> (acquired: Result<(), RefreshRefusal>)
        requires
            old(self).well_formed(),
        ensures
            final(self).well_formed(),
            final(self).shutting_down() == old(self).shutting_down(),
            final(self).completions() == old(self).completions(),
            old(self).shutting_down() ==> acquired == Err::<(), RefreshRefusal>(RefreshRefusal::ShuttingDown)
                && final(self).active() == old(self).active(),
            !old(self).shutting_down() && old(self).active().contains(id@) ==> acquired == Err::<(), RefreshRefusal>(
                RefreshRefusal::Busy,
            ) && final(self).active() == old(self).active(),
            !old(self).shutting_down() && !old(self).active().contains(id@) ==> acquired is Ok
                && final(self).active() == old(self).active().insert(id@),
    {
        if self.shutdown_requested {
            return Err(RefreshRefusal::ShuttingDown);
        }
        match self.active_position(id) {
            Some(i) => {
                assert(texts(self.active@)[i as int] == id@);
                assert(texts(self.active@).contains(id@));
                Err(RefreshRefusal::Busy)
            },
            None => {
                let ghost before = texts(self.active@);
                let owned = id.to_string();
                assert(owned@ == id@);
                self.active.push(owned);
                proof {
                    let after = texts(self.active@);
                    assert(after =~= before.push(id@));
                    before.lemma_push_to_set_commute(id@);
                    assert(texts(self.active@).to_set() == before.to_set().insert(id@));
                    assert forall|i: int, j: int| 0 <= i < j < after.len() implies #[trigger] after[i]
                        != #[trigger] after[j] by {
                        if j == before.len() {
                            assert(before.to_set().contains(before[i]));
                        } else {
                            assert(before[i] != before[j]);
                        }
                    }
                }
                Ok(())
            },
        }
    }

    /// Ends the refresh of program `id`.
    pub fn release(&mut self, id: &str)
        requires
            old(self).well_formed(),
        ensures
            final(self).well_formed(),
            final(self).active() == old(self).active().remove(id@),
            final(self).shutting_down() == old(self).shutting_down(),
            final(self).completions() == old(self).completions(),
    {
        match self.active_position(id) {
            Some(i) => {
                let ghost before = texts(self.active@);
                let _ = self.active.remove(i);
                proof {
                    let after = texts(self.active@);
                    assert(after =~= before.remove(i as int));
                    assert forall|a: int, b: int| 0 <= a < b < after.len() implies #[trigger] after[a]
                        != #[trigger] after[b] by {
                        if a < i && b < i {
                            assert(before[a] != before[b]);
                        } else if a < i {
                            assert(before[a] != before[b + 1]);
                        } else {
                            assert(before[a + 1] != before[b + 1]);
                        }
                    }
                    assert(after.to_set() =~= before.to_set().remove(id@)) by {
                        assert forall|x: Seq<char>| after.to_set().contains(x) == before.to_set().remove(id@).contains(x) by {
                            if after.contains(x) {
                                let k = choose|k: int| 0 <= k < after.len() && after[k] == x;
                                if k < i {
                                    assert(before[k] == x);
                                    assert(before[k] != before[i as int]);
                                } else {
                                    assert(before[k + 1] == x);
                                    assert(before[i as int] != before[k + 1]);
                                }
                            }
                            if before.contains(x) && x != id@ {
                                let k = choose|k: int| 0 <= k < before.len() && before[k] == x;
                                if k < i {
                                    assert(after[k] == x);
                                } else {
                                    assert(k != i);
                                    assert(after[k - 1] == x);
                                }
                            }
                        }
                    }
                }
            },
            None => {
                assert(self.active().remove(id@) =~= self.active());
            },
        }
    }

    /// Begins shutdown: no refresh starts from now on, and the ones under way run to their end.
    pub fn begin_shutdown(&mut self)
        requires
            old(self).well_formed(),
        ensures
            final(self).well_formed(),
            final(self).shutting_down(),
            final(self).active() == old(self).active(),
            final(self).completions() == old(self).completions(),
    {
        self.shutdown_requested = true;
    }

    /// Whether shutdown has begun.
    pub fn is_shutting_down(&self) -> (shutting_down: bool)
        ensures
            shutting_down == self.shutting_down(),
    {
        self.shutdown_requested
    }

    fn completion_position(&self, id: &str) -> (found: Option<usize>)
        requires
            self.well_formed(),
        ensures
            match found {
                Some(i) => i < self.completed@.len() && self.completed@[i as int].0@ == id@,
                None => !self.completions().contains_key(id@),
            },
    {
        let mut i: usize = 0;
        while i < self.completed.len()
            invariant
                i <= self.completed@.len(),
                forall|j: int| 0 <= j < i ==> #[trigger] self.completed@[j].0@ != id@,
            decreases self.completed@.len() - i,
        {
            if text_eq(self.completed[i].0.as_str(), id) {
                return Some(i);
            }
            i = i + 1;
        }
        None
    }

    /// Records that a refresh of program `id` completed at `now`.
    pub fn mark_completed(&mut self, id: &str, now: u64)
        requires
            old(self).well_formed(),
        ensures
            final(self).well_formed(),
            final(self).completions() == old(self).completions().insert(id@, now),
            final(self).active() == old(self).active(),
            final(self).shutting_down() == old(self).shutting_down(),
    {
        let ghost before = self.completed@;
        match self.completion_position(id) {
            Some(i) => {
                self.completed.set(i, (id.to_string(), now));
                proof {
                    let after = self.completed@;
                    assert(completion_keys(after) =~= completion_keys(before));
                    assert forall|x: Seq<char>| #[trigger] completion_map(after).contains_key(x) == completion_map(
                        before,
                    ).insert(id@, now).contains_key(x) by {
                        if completion_map(before).contains_key(x) {
                            let k = choose|k: int| 0 <= k < before.len() && before[k].0@ == x;
                            assert(completion_keys(after)[k] == x);
                        }
                        if completion_map(after).contains_key(x) {
                            let k = choose|k: int| 0 <= k < after.len() && after[k].0@ == x;
                            assert(completion_keys(before)[k] == x);
                        }
                    }
                    assert forall|x: Seq<char>| #[trigger] completion_map(after).contains_key(x) implies completion_map(
                        after,
                    )[x] == completion_map(before).insert(id@, now)[x] by {
                        let k = choose|k: int| 0 <= k < after.len() && after[k].0@ == x;
                        lemma_completion_index(after, k);
                        if k != i {
                            assert(after[k] == before[k]);
                            lemma_completion_index(before, k);
                            assert(completion_keys(before)[k] != completion_keys(before)[i as int]) by {
                                if k < i {
                                } else {
                                }
                            }
                        }
                    }
                    assert(completion_map(after) =~= completion_map(before).insert(id@, now));
                }
            },
            None => {
                self.completed.push((id.to_string(), now));
                proof {
                    let after = self.completed@;
                    assert(completion_keys(after) =~= completion_keys(before).push(id@));
                    assert forall|a: int, b: int| 0 <= a < b < after.len() implies #[trigger] completion_keys(after)[a]
                        != #[trigger] completion_keys(after)[b] by {
                        if b == before.len() {
                            if completion_keys(before)[a] == id@ {
                                assert(completion_map(before).contains_key(id@));
                            }
                        } else {
                            assert(completion_keys(before)[a] != completion_keys(before)[b]);
                        }
                    }
                    assert forall|x: Seq<char>| #[trigger] completion_map(after).contains_key(x) == completion_map(
                        before,
                    ).insert(id@, now).contains_key(x) by {
                        if completion_map(before).contains_key(x) {
                            let k = choose|k: int| 0 <= k < before.len() && before[k].0@ == x;
                            assert(after[k].0@ == x);
                        }
                        if x == id@ {
                            assert(after[before.len() as int].0@ == x);
                        }
                        if completion_map(after).contains_key(x) {
                            let k = choose|k: int| 0 <= k < after.len() && after[k].0@ == x;
                            if k < before.len() {
                                assert(before[k].0@ == x);
                            }
                        }
                    }
                    assert forall|x: Seq<char>| #[trigger] completion_map(after).contains_key(x) implies completion_map(
                        after,
                    )[x] == completion_map(before).insert(id@, now)[x] by {
                        let k = choose|k: int| 0 <= k < after.len() && after[k].0@ == x;
                        lemma_completion_index(after, k);
                        if k < before.len() {
                            lemma_completion_index(before, k);
                        }
                    }
                    assert(completion_map(after) =~= completion_map(before).insert(id@, now));
                }
            },
        }
    }

    /// When the last refresh of program `id` completed, if one did.
    pub fn last_completed(&self, id: &str) -> (completed: Option<u64>)
        requires
            self.well_formed(),
        ensures
            completed == if self.completions().contains_key(id@) {
                Some(self.completions()[id@])
            } else {
                None::<u64>
            },
    {
        match self.completion_position(id) {
            Some(i) => {
                proof {
                    lemma_completion_index(self.completed@, i as int);
                }
                Some(self.completed[i].1)
            },
            None => None,
        }
    }

    /// Forgets the completions of programs that are not in `ids`.
    pub fn retain_completed(&mut self, ids: &Vec<String>)
        requires
            old(self).well_formed(),
        ensures
            final(self).well_formed(),
            final(self).completions() == old(self).completions().restrict(texts(ids@).to_set()),
            final(self).active() == old(self).active(),
            final(self).shutting_down() == old(self).shutting_down(),
    {
        let ghost keep = texts(ids@).to_set();
        let ghost original = self.completed@;
        let mut kept: Vec<(String, u64)> = Vec::new();
        let mut i: usize = 0;
        while i < self.completed.len()
            invariant
                i <= original.len(),
                self.completed@ == original,
                unique(completion_keys(original)),
                keep == texts(ids@).to_set(),
                unique(completion_keys(kept@)),
                forall|k: int| 0 <= k < kept@.len() ==> exists|j: int| 0 <= j < i && #[trigger] kept@[k] == original[j],
                completion_map(kept@) == completion_map(original.subrange(0, i as int)).restrict(keep),
            decreases original.len() - i,
        {
            let mut wanted = false;
            let mut p: usize = 0;
            while p < ids.len()
                invariant
                    p <= ids@.len(),
                    i < original.len(),
                    self.completed@ == original,
                    wanted == exists|j: int| 0 <= j < p && #[trigger] ids@[j]@ == original[i as int].0@,
                decreases ids@.len() - p,
            {
                if text_eq(ids[p].as_str(), self.completed[i].0.as_str()) {
                    wanted = true;
                }
                p = p + 1;
            }
            proof {
                if keep.contains(original[i as int].0@) {
                    let k = choose|k: int| 0 <= k < texts(ids@).len() && texts(ids@)[k] == original[i as int].0@;
                    assert(ids@[k]@ == original[i as int].0@);
                }
                if wanted {
                    let k = choose|k: int| 0 <= k < p && #[trigger] ids@[k]@ == original[i as int].0@;
                    assert(texts(ids@)[k] == original[i as int].0@);
                }
            }
            assert(wanted == keep.contains(original[i as int].0@));
            let entry = (self.completed[i].0.clone(), self.completed[i].1);
            let ghost prefix = original.subrange(0, i as int);
            let ghost next = original.subrange(0, i + 1);
            proof {
                assert(next =~= prefix.push(original[i as int]));
                assert(completion_keys(next) =~= completion_keys(prefix).push(original[i as int].0@));
                assert forall|a: int, b: int| 0 <= a < b < next.len() implies #[trigger] completion_keys(next)[a]
                    != #[trigger] completion_keys(next)[b] by {
                    assert(completion_keys(original)[a] != completion_keys(original)[b]);
                }
                assert forall|a: int, b: int| 0 <= a < b < prefix.len() implies #[trigger] completion_keys(prefix)[a]
                    != #[trigger] completion_keys(prefix)[b] by {
                    assert(completion_keys(original)[a] != completion_keys(original)[b]);
                }
            }
            let ghost e = original[i as int];
            let ghost before_map = completion_map(prefix);
            proof {
                assert(!before_map.contains_key(e.0@)) by {
                    if before_map.contains_key(e.0@) {
                        let k = choose|k: int| 0 <= k < prefix.len() && prefix[k].0@ == e.0@;
                        assert(completion_keys(original)[k] != completion_keys(original)[i as int]);
                    }
                }
                assert(completion_map(next) =~= before_map.insert(e.0@, e.1)) by {
                    assert forall|x: Seq<char>| #[trigger] completion_map(next).contains_key(x) == before_map.insert(
                        e.0@,
                        e.1,
                    ).contains_key(x) by {
                        if before_map.contains_key(x) {
                            let k = choose|k: int| 0 <= k < prefix.len() && prefix[k].0@ == x;
                            assert(next[k].0@ == x);
                        }
                        if x == e.0@ {
                            assert(next[i as int].0@ == x);
                        }
                        if completion_map(next).contains_key(x) {
                            let k = choose|k: int| 0 <= k < next.len() && next[k].0@ == x;
                            if k < prefix.len() {
                                assert(prefix[k].0@ == x);
                            }
                        }
                    }
                    assert forall|x: Seq<char>| #[trigger] completion_map(next).contains_key(x) implies completion_map(
                        next,
                    )[x] == before_map.insert(e.0@, e.1)[x] by {
                        let k = choose|k: int| 0 <= k < next.len() && next[k].0@ == x;
                        lemma_completion_index(next, k);
                        if k < prefix.len() {
                            lemma_completion_index(prefix, k);
                        }
                    }
                }
            }
            if wanted {
                let ghost old_kept = kept@;
                kept.push(entry);
                proof {
                    let after = kept@;
                    assert(!completion_map(old_kept).contains_key(e.0@));
                    assert(completion_keys(after) =~= completion_keys(old_kept).push(e.0@));
                    assert forall|a: int, b: int| 0 <= a < b < after.len() implies #[trigger] completion_keys(after)[a]
                        != #[trigger] completion_keys(after)[b] by {
                        if b == old_kept.len() {
                            if completion_keys(old_kept)[a] == e.0@ {
                                assert(completion_map(old_kept).contains_key(e.0@));
                            }
                        } else {
                            assert(completion_keys(old_kept)[a] != completion_keys(old_kept)[b]);
                        }
                    }
                    assert(completion_map(after) =~= completion_map(old_kept).insert(e.0@, e.1)) by {
                        assert forall|x: Seq<char>| #[trigger] completion_map(after).contains_key(x) == completion_map(
                            old_kept,
                        ).insert(e.0@, e.1).contains_key(x) by {
                            if completion_map(old_kept).contains_key(x) {
                                let k = choose|k: int| 0 <= k < old_kept.len() && old_kept[k].0@ == x;
                                assert(after[k].0@ == x);
                            }
                            if x == e.0@ {
                                assert(after[old_kept.len() as int].0@ == x);
                            }
                            if completion_map(after).contains_key(x) {
                                let k = choose|k: int| 0 <= k < after.len() && after[k].0@ == x;
                                if k < old_kept.len() {
                                    assert(old_kept[k].0@ == x);
                                }
                            }
                        }
                        assert forall|x: Seq<char>| #[trigger] completion_map(after).contains_key(x) implies completion_map(
                            after,
                        )[x] == completion_map(old_kept).insert(e.0@, e.1)[x] by {
                            let k = choose|k: int| 0 <= k < after.len() && after[k].0@ == x;
                            lemma_completion_index(after, k);
                            if k < old_kept.len() {
                                lemma_completion_index(old_kept, k);
                            }
                        }
                    }
                    assert(completion_map(after) =~= completion_map(next).restrict(keep));
                    assert forall|k: int| 0 <= k < after.len() implies exists|j: int| 0 <= j < i + 1 && #[trigger] after[k]
                        == original[j] by {
                        if k == old_kept.len() {
                            assert(after[k] == original[i as int]);
                        } else {
                            assert(after[k] == old_kept[k]);
                        }
                    }
                }
            } else {
                assert(completion_map(kept@) =~= completion_map(next).restrict(keep));
            }
            i = i + 1;
        }
        assert(original.subrange(0, i as int) =~= original);
        self.completed = kept;
    }
}


/// How many sources of a managed configuration are enabled: the sources a refresh reads.
pub fn enabled_source_count(sources: &Vec<ConfigSource>) -> (count: usize)
    ensures
        count == enabled_positions(sources@).len(),
{
    let mut count: usize = 0;
    let mut i: usize = 0;
    while i < sources.len()
        invariant
            i <= sources@.len(),
            count == enabled_positions(sources@.subrange(0, i as int)).len(),
            count <= i,
        decreases sources@.len() - i,
    {
        proof {
            let next = sources@.subrange(0, i + 1);
            assert(next.drop_last() =~= sources@.subrange(0, i as int));
        }
        if sources[i].enabled() {
            count = count + 1;
        }
        i = i + 1;
    }
    assert(sources@.subrange(0, i as int) =~= sources@);
    count
}

/// Where a managed program stands in its run cycle.
#[derive(PartialEq, Eq, Structural, Clone, Copy, Debug)]
pub enum ProgramRunState {
    Stopped,
    Starting,
    Running,
    Stopping,
    Backoff,
    StopFailed,
    Exited,
}

/// Whether a program counts as active for a refresh: it is starting, running, stopping, waiting
/// to be restarted, or failed to stop; a refresh then applies to a live program.
pub open spec fn is_active_state(state: ProgramRunState) -> bool {
    match state {
        ProgramRunState::Starting | ProgramRunState::Running | ProgramRunState::Stopping
        | ProgramRunState::Backoff | ProgramRunState::StopFailed => true,
        ProgramRunState::Stopped | ProgramRunState::Exited => false,
    }
}

/// Whether a program in `state` counts as active for a refresh.
pub fn program_is_active(state: ProgramRunState) -> (active: bool)
    ensures
        active == is_active_state(state),
{
    match state {
        ProgramRunState::Starting | ProgramRunState::Running | ProgramRunState::Stopping
        | ProgramRunState::Backoff | ProgramRunState::StopFailed => true,
        ProgramRunState::Stopped | ProgramRunState::Exited => false,
    }
}

/// Whether a refresh must assess the refreshed configuration's privileges: only for an active
/// program whose policy is not the standard one.
pub fn refresh_assesses_privileges(was_active: bool, policy: PrivilegePolicy) -> (assess: bool)
    ensures
        assess == (was_active && policy != PrivilegePolicy::Standard),
{
    was_active && !matches!(policy, PrivilegePolicy::Standard)
}

/// Whether an assessed refresh needs the privilege broker: the refreshed configuration asks
/// for elevation, or the policy always elevates.
pub fn refresh_needs_privilege_broker(policy: PrivilegePolicy, assessed: PrivilegeRequirement) -> (needed: bool)
    ensures
        needed == (assessed == PrivilegeRequirement::Elevated || policy == PrivilegePolicy::Elevated),
{
    matches!(assessed, PrivilegeRequirement::Elevated) || matches!(policy, PrivilegePolicy::Elevated)
}

/// Whether committing a refresh is deferred: the program was active and needs the privilege
/// broker, and no administrator session is open. The prepared configuration is then discarded
/// and the refresh fails with a privilege error.
pub fn refresh_deferred(was_active: bool, needs_privilege_broker: bool, broker_session_active: bool) -> (deferred:
    bool)
    ensures
        deferred == (was_active && needs_privilege_broker && !broker_session_active),
{
    was_active && needs_privilege_broker && !broker_session_active
}

/// The message of a refresh deferred until an administrator session is open.
pub fn refresh_deferred_message() -> (text: &'static str)
    ensures
        text@ == "Automatic configuration refresh was deferred until an administrator session is opened by an explicit start"@,
{
    "Automatic configuration refresh was deferred until an administrator session is opened by an explicit start"
}

} // verus!
