use vstd::prelude::*;

use crate::text::text_eq;

verus! {

/// After a failed automatic update, the next attempt comes at most this long after it (ms).
pub const FAILURE_RETRY_MS: u64 = 300_000;

/// When the configuration of one program is next updated automatically.
struct ScheduleEntry {
    id: String,
    interval: u64,
    next: u64,
    last_completed: Option<u64>,
}

/// The schedule of one program: its update interval, when it is next due, and the completion
/// of its last update that the schedule knows (all times in milliseconds).
pub struct ScheduleView {
    pub interval: u64,
    pub next: u64,
    pub last_completed: Option<u64>,
}

/// One program's automatic update policy: its id, interval and last completed update.
pub type PolicyView = (Seq<char>, u64, Option<u64>);

/// Whether a completion time is later than another; no completion is earlier than any.
pub open spec fn later(a: Option<u64>, b: Option<u64>) -> bool {
    match (a, b) {
        (Some(x), Some(y)) => x > y,
        (Some(_), None) => true,
        _ => false,
    }
}

/// The deadline counted from the last completion, or from now when there was none.
pub open spec fn deadline(last_completed: Option<u64>, interval: u64, now: u64) -> int {
    match last_completed {
        Some(t) => t + interval,
        None => now + interval,
    }
}

/// One policy applied to the schedules: a new or changed interval, or a newer completion,
/// restarts the program's deadline; otherwise the program is due once its deadline has come,
/// and its next deadline is then one interval from now.
pub open spec fn schedule_step(entries: Map<Seq<char>, ScheduleView>, policy: PolicyView, now: u64) -> (
    Map<Seq<char>, ScheduleView>,
    bool,
) {
    let (id, interval, last) = policy;
    let restarted = ScheduleView { interval, next: deadline(last, interval, now) as u64, last_completed: last };
    if !entries.contains_key(id) || entries[id].interval != interval {
        (entries.insert(id, restarted), false)
    } else if later(last, entries[id].last_completed) {
        (entries.insert(id, restarted), false)
    } else if now >= entries[id].next {
        (entries.insert(id, ScheduleView { next: (now + interval) as u64, ..entries[id] }), true)
    } else {
        (entries, false)
    }
}

/// The policies applied in order: the schedules after them, and the programs that came due,
/// in policy order.
pub open spec fn schedule_run(entries: Map<Seq<char>, ScheduleView>, policies: Seq<PolicyView>, now: u64) -> (
    Map<Seq<char>, ScheduleView>,
    Seq<Seq<char>>,
)
    decreases policies.len(),
{
    if policies.len() == 0 {
        (entries, Seq::empty())
    } else {
        let (before, due) = schedule_run(entries, policies.drop_last(), now);
        let (after, is_due) = schedule_step(before, policies.last(), now);
        (after, if is_due {
            due.push(policies.last().0)
        } else {
            due
        })
    }
}

/// The ids that the policies name.
pub open spec fn policy_ids(policies: Seq<PolicyView>) -> Set<Seq<char>> {
    Set::new(|id: Seq<char>| exists|i: int| 0 <= i < policies.len() && #[trigger] policies[i].0 == id)
}

/// Whether the deadlines of the policies fit in the time type.
pub open spec fn deadlines_fit(policies: Seq<PolicyView>, now: u64) -> bool {
    forall|i: int|
        0 <= i < policies.len() ==> deadline(#[trigger] policies[i].2, policies[i].1, now) <= u64::MAX
            && now + policies[i].1 <= u64::MAX
}

pub open spec fn policy_views(policies: Seq<(String, u64, Option<u64>)>) -> Seq<PolicyView> {
    Seq::new(policies.len(), |i: int| (policies[i].0@, policies[i].1, policies[i].2))
}

spec fn entry_view(e: ScheduleEntry) -> ScheduleView {
    ScheduleView { interval: e.interval, next: e.next, last_completed: e.last_completed }
}

spec fn unique_ids(entries: Seq<ScheduleEntry>) -> bool {
    forall|i: int, j: int| 0 <= i < j < entries.len() ==> #[trigger] entries[i].id@ != #[trigger] entries[j].id@
}

spec fn entries_map(entries: Seq<ScheduleEntry>) -> Map<Seq<char>, ScheduleView> {
    Map::new(
        |id: Seq<char>| exists|i: int| 0 <= i < entries.len() && entries[i].id@ == id,
        |id: Seq<char>| entry_view(entries[choose|i: int| 0 <= i < entries.len() && entries[i].id@ == id]),
    )
}

proof fn lemma_entries_map_index(entries: Seq<ScheduleEntry>, i: int)
    requires
        unique_ids(entries),
        0 <= i < entries.len(),
    ensures
        entries_map(entries).contains_key(entries[i].id@),
        entries_map(entries)[entries[i].id@] == entry_view(entries[i]),
{
    let id = entries[i].id@;
    assert(exists|x: int| 0 <= x < entries.len() && entries[x].id@ == id);
    let c = choose|x: int| 0 <= x < entries.len() && entries[x].id@ == id;
    if c != i {
        if c < i {
            assert(entries[c].id@ != entries[i].id@);
        } else {
            assert(entries[i].id@ != entries[c].id@);
        }
    }
}

proof fn lemma_entries_map_update(entries: Seq<ScheduleEntry>, i: int, e: ScheduleEntry)
    requires
        unique_ids(entries),
        0 <= i < entries.len(),
        e.id@ == entries[i].id@,
    ensures
        unique_ids(entries.update(i, e)),
        entries_map(entries.update(i, e)) == entries_map(entries).insert(e.id@, entry_view(e)),
{
    let u = entries.update(i, e);
    assert forall|a: int, b: int| 0 <= a < b < u.len() implies #[trigger] u[a].id@ != #[trigger] u[b].id@ by {
        assert(entries[a].id@ != entries[b].id@);
    }
    lemma_entries_map_index(entries, i);
    assert forall|id: Seq<char>| #[trigger] entries_map(u).contains_key(id) == entries_map(entries).insert(
        e.id@,
        entry_view(e),
    ).contains_key(id) by {
        if entries_map(entries).contains_key(id) {
            let k = choose|k: int| 0 <= k < entries.len() && entries[k].id@ == id;
            assert(u[k].id@ == id);
        }
        if entries_map(u).contains_key(id) {
            let k = choose|k: int| 0 <= k < u.len() && u[k].id@ == id;
            assert(entries[k].id@ == id);
        }
    }
    assert forall|id: Seq<char>| #[trigger] entries_map(u).contains_key(id) implies entries_map(u)[id]
        == entries_map(entries).insert(e.id@, entry_view(e))[id] by {
        let k = choose|k: int| 0 <= k < u.len() && u[k].id@ == id;
        lemma_entries_map_index(u, k);
        if k != i {
            lemma_entries_map_index(entries, k);
        }
    }
    assert(entries_map(u) =~= entries_map(entries).insert(e.id@, entry_view(e)));
}

proof fn lemma_entries_map_push(entries: Seq<ScheduleEntry>, e: ScheduleEntry)
    requires
        unique_ids(entries),
        !entries_map(entries).contains_key(e.id@),
    ensures
        unique_ids(entries.push(e)),
        entries_map(entries.push(e)) == entries_map(entries).insert(e.id@, entry_view(e)),
{
    let u = entries.push(e);
    assert forall|a: int, b: int| 0 <= a < b < u.len() implies #[trigger] u[a].id@ != #[trigger] u[b].id@ by {
        if b == entries.len() {
            assert(u[a] == entries[a]);
            if entries[a].id@ == e.id@ {
                assert(entries_map(entries).contains_key(e.id@));
            }
        }
    }
    assert forall|id: Seq<char>| #[trigger] entries_map(u).contains_key(id) == entries_map(entries).insert(
        e.id@,
        entry_view(e),
    ).contains_key(id) by {
        if entries_map(entries).contains_key(id) {
            let k = choose|k: int| 0 <= k < entries.len() && entries[k].id@ == id;
            assert(u[k].id@ == id);
        }
        if id == e.id@ {
            assert(u[entries.len() as int].id@ == id);
        }
        if entries_map(u).contains_key(id) {
            let k = choose|k: int| 0 <= k < u.len() && u[k].id@ == id;
            if k < entries.len() {
                assert(entries[k].id@ == id);
            }
        }
    }
    assert forall|id: Seq<char>| #[trigger] entries_map(u).contains_key(id) implies entries_map(u)[id]
        == entries_map(entries).insert(e.id@, entry_view(e))[id] by {
        let k = choose|k: int| 0 <= k < u.len() && u[k].id@ == id;
        lemma_entries_map_index(u, k);
        if k < entries.len() {
            lemma_entries_map_index(entries, k);
        }
    }
    assert(entries_map(u) =~= entries_map(entries).insert(e.id@, entry_view(e)));
}

/// The schedules of the automatic configuration updates of all programs.
pub struct ScheduleBook {
    entries: Vec<ScheduleEntry>,
}

impl ScheduleBook {
    /// The schedule of each program, by id.
    pub closed spec fn schedules(&self) -> Map<Seq<char>, ScheduleView> {
        entries_map(self.entries@)
    }

    /// No program is scheduled twice.
    pub closed spec fn well_formed(&self) -> bool {
        unique_ids(self.entries@)
    }

    /// A book with no schedules.
    pub fn new() -> (book: Self)
        ensures
            book.well_formed(),
            book.schedules() == Map::<Seq<char>, ScheduleView>::empty(),
    {
        let book = ScheduleBook { entries: Vec::new() };
        assert(book.schedules() =~= Map::<Seq<char>, ScheduleView>::empty());
        book
    }

    fn position(&self, id: &str) -> (found: Option<usize>)
        requires
            self.well_formed(),
        ensures
            match found {
                Some(i) => i < self.entries@.len() && self.entries@[i as int].id@ == id@,
                None => !self.schedules().contains_key(id@),
            },
    {
        let mut i: usize = 0;
        while i < self.entries.len()
            invariant
                i <= self.entries@.len(),
                forall|j: int| 0 <= j < i ==> #[trigger] self.entries@[j].id@ != id@,
            decreases self.entries@.len() - i,
        {
            if text_eq(self.entries[i].id.as_str(), id) {
                return Some(i);
            }
            i = i + 1;
        }
        None
    }

    /// Applies the automatic update policies of the programs at `now`: schedules of programs
    /// without a policy are dropped, and each policy is then applied in order (see
    /// [`schedule_step`]); returns the programs that came due, in policy order.
    pub fn due(&mut self, policies: Vec<(String, u64, Option<u64>)>, now: u64) -> (due: Vec<String>)
        requires
            old(self).well_formed(),
            deadlines_fit(policy_views(policies@), now),
        ensures
            final(self).well_formed(),
            ({
                let (after, due_ids) = schedule_run(
                    old(self).schedules().restrict(policy_ids(policy_views(policies@))),
                    policy_views(policies@),
                    now,
                );
                &&& final(self).schedules() == after
                &&& due@.map_values(|s: String| s@) == due_ids
            }),
    {
        let ghost pv = policy_views(policies@);
        let ghost active = policy_ids(pv);
        // Drop the schedules of programs without a policy.
        let mut kept: Vec<ScheduleEntry> = Vec::new();
        let ghost original = self.entries@;
        let mut taken: Vec<ScheduleEntry> = Vec::new();
        std::mem::swap(&mut taken, &mut self.entries);
        let mut scan: usize = 0;
        let total = taken.len();
        let mut rest = taken;
        while rest.len() > 0
            invariant
                scan + rest@.len() == original.len(),
                total == original.len(),
                unique_ids(original),
                forall|k: int| 0 <= k < rest@.len() ==> #[trigger] rest@[k] == original[scan + k],
                unique_ids(kept@),
                forall|k: int| 0 <= k < kept@.len() ==> exists|j: int| 0 <= j < scan && #[trigger] kept@[k] == original[j],
                entries_map(kept@) == entries_map(original.subrange(0, scan as int)).restrict(active),
                pv == policy_views(policies@),
                active == policy_ids(pv),
            decreases rest.len(),
        {
            let entry = rest.remove(0);
            assert(entry == original[scan as int]);
            let ghost prefix = original.subrange(0, scan as int);
            let ghost next = original.subrange(0, scan + 1);
            proof {
                assert(unique_ids(prefix));
                assert(unique_ids(next));
                assert(next =~= prefix.push(entry));
                assert(!entries_map(prefix).contains_key(entry.id@)) by {
                    if entries_map(prefix).contains_key(entry.id@) {
                        let k = choose|k: int| 0 <= k < prefix.len() && prefix[k].id@ == entry.id@;
                        assert(original[k].id@ != original[scan as int].id@);
                    }
                }
                lemma_entries_map_push(prefix, entry);
            }
            let mut wanted = false;
            let mut p: usize = 0;
            while p < policies.len()
                invariant
                    p <= policies@.len(),
                    pv == policy_views(policies@),
                    wanted == exists|j: int| 0 <= j < p && #[trigger] pv[j].0 == entry.id@,
                decreases policies@.len() - p,
            {
                assert(pv[p as int].0 == policies@[p as int].0@);
                if text_eq(policies[p].0.as_str(), entry.id.as_str()) {
                    wanted = true;
                }
                p = p + 1;
            }
            assert(wanted == active.contains(entry.id@));
            if wanted {
                proof {
                    assert(!entries_map(kept@).contains_key(entry.id@));
                    lemma_entries_map_push(kept@, entry);
                    assert(entries_map(kept@.push(entry)) =~= entries_map(next).restrict(active));
                }
                kept.push(entry);
            } else {
                assert(entries_map(kept@) =~= entries_map(next).restrict(active));
            }
            scan = scan + 1;
        }
        assert(original.subrange(0, scan as int) =~= original);
        self.entries = kept;
        // Apply the policies in order.
        let ghost start = self.schedules();
        let mut due: Vec<String> = Vec::new();
        let mut i: usize = 0;
        assert(pv.subrange(0, 0) =~= Seq::<PolicyView>::empty());
        assert(due@.map_values(|s: String| s@) =~= Seq::<Seq<char>>::empty());
        while i < policies.len()
            invariant
                i <= policies@.len(),
                pv == policy_views(policies@),
                deadlines_fit(pv, now),
                self.well_formed(),
                ({
                    let (after, due_ids) = schedule_run(start, pv.subrange(0, i as int), now);
                    &&& self.schedules() == after
                    &&& due@.map_values(|s: String| s@) == due_ids
                }),
            decreases policies@.len() - i,
        {
            let ghost before = self.schedules();
            let ghost due_before = due@.map_values(|s: String| s@);
            let ghost policy = pv[i as int];
            proof {
                let next = pv.subrange(0, i + 1);
                assert(next.drop_last() =~= pv.subrange(0, i as int));
                assert(next.last() == policy);
            }
            let id = &policies[i].0;
            let interval = policies[i].1;
            let last = policies[i].2;
            assert(policy == (id@, interval, last));
            assert(deadline(pv[i as int].2, pv[i as int].1, now) <= u64::MAX && now + pv[i as int].1 <= u64::MAX);
            let restart = match last {
                Some(t) => t + interval,
                None => now + interval,
            };
            let (step_due, pushed) = match self.position(id.as_str()) {
                None => {
                    let e = ScheduleEntry { id: id.clone(), interval, next: restart, last_completed: last };
                    proof {
                        lemma_entries_map_push(self.entries@, e);
                    }
                    self.entries.push(e);
                    (false, false)
                },
                Some(k) => {
                    proof {
                        lemma_entries_map_index(self.entries@, k as int);
                    }
                    let current_interval = self.entries[k].interval;
                    let current_next = self.entries[k].next;
                    let current_last = self.entries[k].last_completed;
                    let is_later = match (last, current_last) {
                        (Some(x), Some(y)) => x > y,
                        (Some(_), None) => true,
                        _ => false,
                    };
                    if current_interval != interval || is_later {
                        let e = ScheduleEntry { id: id.clone(), interval, next: restart, last_completed: last };
                        proof {
                            lemma_entries_map_update(self.entries@, k as int, e);
                        }
                        self.entries.set(k, e);
                        (false, false)
                    } else if now >= current_next {
                        let e = ScheduleEntry {
                            id: id.clone(),
                            interval: current_interval,
                            next: now + interval,
                            last_completed: current_last,
                        };
                        proof {
                            lemma_entries_map_update(self.entries@, k as int, e);
                        }
                        self.entries.set(k, e);
                        (true, true)
                    } else {
                        (false, false)
                    }
                },
            };
            if pushed {
                due.push(id.clone());
                assert(due@.map_values(|s: String| s@) =~= due_before.push(id@));
            }
            assert(step_due == schedule_step(before, policy, now).1);
            i = i + 1;
        }
        assert(pv.subrange(0, i as int) =~= pv);
        due
    }

    /// After a failed update of program `id` at `now`, brings its next attempt forward to at
    /// most the failure retry window (or its interval, when that is shorter) from now.
    pub fn retry_soon(&mut self, id: &str, now: u64)
        requires
            old(self).well_formed(),
            now + FAILURE_RETRY_MS <= u64::MAX,
        ensures
            final(self).well_formed(),
            final(self).schedules() == if old(self).schedules().contains_key(id@) {
                let s = old(self).schedules()[id@];
                old(self).schedules().insert(
                    id@,
                    ScheduleView {
                        next: (now + if s.interval < FAILURE_RETRY_MS {
                            s.interval
                        } else {
                            FAILURE_RETRY_MS
                        }) as u64,
                        ..s
                    },
                )
            } else {
                old(self).schedules()
            },
    {
        match self.position(id) {
            Some(k) => {
                proof {
                    lemma_entries_map_index(self.entries@, k as int);
                }
                let interval = self.entries[k].interval;
                let wait = if interval < FAILURE_RETRY_MS {
                    interval
                } else {
                    FAILURE_RETRY_MS
                };
                let e = ScheduleEntry {
                    id: self.entries[k].id.clone(),
                    interval,
                    next: now + wait,
                    last_completed: self.entries[k].last_completed,
                };
                proof {
                    lemma_entries_map_update(self.entries@, k as int, e);
                }
                self.entries.set(k, e);
            },
            None => {},
        }
    }

    /// How many programs are scheduled.
    pub fn len(&self) -> (count: usize)
        requires
            self.well_formed(),
        ensures
            count == self.schedules().dom().len(),
    {
        proof {
            lemma_entries_map_len(self.entries@);
        }
        self.entries.len()
    }
}

proof fn lemma_entries_map_len(entries: Seq<ScheduleEntry>)
    requires
        unique_ids(entries),
    ensures
        entries_map(entries).dom().finite(),
        entries_map(entries).dom().len() == entries.len(),
    decreases entries.len(),
{
    if entries.len() == 0 {
        assert(entries_map(entries).dom() =~= Set::<Seq<char>>::empty());
    } else {
        let rest = entries.drop_last();
        let e = entries.last();
        assert(unique_ids(rest));
        lemma_entries_map_len(rest);
        assert(!entries_map(rest).contains_key(e.id@)) by {
            if entries_map(rest).contains_key(e.id@) {
                let k = choose|k: int| 0 <= k < rest.len() && rest[k].id@ == e.id@;
                assert(entries[k].id@ != entries[entries.len() - 1].id@);
            }
        }
        lemma_entries_map_push(rest, e);
        assert(rest.push(e) =~= entries);
    }
}

/// A program that comes due is not due again for one interval: a program whose deadline has come
/// is due when its policy keeps the interval and brings no newer completion; when it is due at
/// `now`, its next deadline is `now + interval`, and the
/// same policy applied at any time before that deadline finds it not due and changes nothing.
pub proof fn lemma_due_program_waits_one_interval(
    entries: Map<Seq<char>, ScheduleView>,
    policy: PolicyView,
    now: u64,
    later_now: u64,
)
    requires
        now + policy.1 <= u64::MAX,
        now <= later_now < now + policy.1,
    ensures
        ({
            let (after, due) = schedule_run(entries, seq![policy], now);
            &&& (entries.contains_key(policy.0) && entries[policy.0].interval == policy.1 && !later(
                policy.2,
                entries[policy.0].last_completed,
            ) && now >= entries[policy.0].next) ==> due == seq![policy.0]
            &&& due == seq![policy.0] ==> {
                &&& after.contains_key(policy.0)
                &&& after[policy.0].next == now + policy.1
                &&& schedule_run(after, seq![policy], later_now) == (after, Seq::<Seq<char>>::empty())
            }
        }),
{
    let one = seq![policy];
    assert(one.drop_last() =~= Seq::<PolicyView>::empty());
    assert(one.last() == policy);
    assert(schedule_run(entries, one.drop_last(), now) == (entries, Seq::<Seq<char>>::empty()));
    let step = schedule_step(entries, policy, now);
    assert(schedule_run(entries, one, now) == (step.0, if step.1 {
        Seq::<Seq<char>>::empty().push(policy.0)
    } else {
        Seq::<Seq<char>>::empty()
    }));
    let (after, due) = schedule_run(entries, one, now);
    if due == seq![policy.0] {
        if !step.1 {
            assert(due.len() == 0);
        }
        assert(schedule_run(after, one.drop_last(), later_now) == (after, Seq::<Seq<char>>::empty()));
        assert(schedule_step(entries, policy, now).1);
        assert(after == schedule_step(entries, policy, now).0);
        assert(after[policy.0].next == now + policy.1);
        assert(after[policy.0].interval == policy.1);
        assert(!later(policy.2, after[policy.0].last_completed));
        assert(schedule_step(after, policy, later_now) == (after, false));
    }
}

} // verus!
