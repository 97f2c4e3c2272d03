use vstd::prelude::*;

use crate::sorted_texts::{insert_sorted_unique, strictly_sorted, texts};
use crate::text::{text_eq, text_less, text_order, TextOrder};

verus! {

/// How many device activations may be pending at once.
pub const AUTHORIZATION_SESSION_CAPACITY: usize = 8;

/// How long a device activation stays pending, in milliseconds.
pub const AUTHORIZATION_SESSION_TTL_MS: u64 = 180_000;

/// The browser came back for an activation that has been started.
pub struct LicenseAuthorizationCallbackEvent {
    pub state: String,
}

/// An activation failed; what the user is told.
pub struct LicenseAuthorizationFailedEvent {
    pub state: String,
    pub message: String,
}

/// The device registered with the license service.
pub struct LocalLicenseDevice {
    pub device_id: String,
    pub display_name: Option<String>,
    pub platform: String,
}

/// Why a pending activation cannot be completed.
#[derive(Clone, Copy, Debug, PartialEq, Eq, Structural)]
pub enum PendingAuthorizationError {
    Missing,
    Expired,
    CompletionInProgress,
}

impl PendingAuthorizationError {
    /// What the user is told.
    pub fn details(self) -> (text: &'static str)
        ensures
            text@ == match self {
                PendingAuthorizationError::Missing => "The device activation session is no longer available. Start activation again."@,
                PendingAuthorizationError::Expired => "The device activation session expired. Start activation again."@,
                PendingAuthorizationError::CompletionInProgress => "This device activation response is already being processed."@,
            },
    {
        match self {
            PendingAuthorizationError::Missing => "The device activation session is no longer available. Start activation again.",
            PendingAuthorizationError::Expired => "The device activation session expired. Start activation again.",
            PendingAuthorizationError::CompletionInProgress => "This device activation response is already being processed.",
        }
    }
}

/// What completing an activation needs.
pub struct PendingAuthorizationCredentials {
    pub pkce_verifier: String,
    pub redirect_uri: String,
}

/// A pending activation.
pub struct PendingAuthorization {
    state: String,
    pkce_verifier: String,
    redirect_uri: String,
    expires_at: u64,
    completion_in_progress: bool,
    ordinal: u64,
}

/// The mathematical value of a pending activation.
pub struct PendingView {
    pub pkce_verifier: Seq<char>,
    pub redirect_uri: Seq<char>,
    pub expires_at: u64,
    pub completion_in_progress: bool,
    pub ordinal: u64,
}

pub closed spec fn pending_view(e: PendingAuthorization) -> PendingView {
    PendingView {
        pkce_verifier: e.pkce_verifier@,
        redirect_uri: e.redirect_uri@,
        expires_at: e.expires_at,
        completion_in_progress: e.completion_in_progress,
        ordinal: e.ordinal,
    }
}

pub closed spec fn unique_states(s: Seq<PendingAuthorization>) -> bool {
    forall|i: int, j: int| 0 <= i < j < s.len() ==> #[trigger] s[i].state@ != #[trigger] s[j].state@
}

pub closed spec fn sessions_of(s: Seq<PendingAuthorization>) -> Map<Seq<char>, PendingView> {
    Map::new(
        |k: Seq<char>| exists|i: int| 0 <= i < s.len() && s[i].state@ == k,
        |k: Seq<char>| pending_view(s[choose|i: int| 0 <= i < s.len() && s[i].state@ == k]),
    )
}

proof fn lemma_sessions_index(s: Seq<PendingAuthorization>, i: int)
    requires
        unique_states(s),
        0 <= i < s.len(),
    ensures
        sessions_of(s).contains_key(s[i].state@),
        sessions_of(s)[s[i].state@] == pending_view(s[i]),
{
    let k = s[i].state@;
    assert(exists|x: int| 0 <= x < s.len() && s[x].state@ == k);
    let c = choose|x: int| 0 <= x < s.len() && s[x].state@ == k;
    if c < i {
        assert(s[c].state@ != s[i].state@);
    } else if c > i {
        assert(s[i].state@ != s[c].state@);
    }
}

proof fn lemma_sessions_ext(s: Seq<PendingAuthorization>, m: Map<Seq<char>, PendingView>)
    requires
        unique_states(s),
        forall|i: int| 0 <= i < s.len() ==> m.contains_key(#[trigger] s[i].state@) && m[s[i].state@]
            == pending_view(s[i]),
        forall|k: Seq<char>| #[trigger] m.contains_key(k) ==> exists|i: int| 0 <= i < s.len() && s[i].state@ == k,
    ensures
        sessions_of(s) == m,
{
    assert forall|k: Seq<char>| #[trigger] sessions_of(s).contains_key(k) == m.contains_key(k) by {
        if sessions_of(s).contains_key(k) {
            let c = choose|x: int| 0 <= x < s.len() && s[x].state@ == k;
            assert(m.contains_key(s[c].state@));
        }
    }
    assert forall|k: Seq<char>| #[trigger] sessions_of(s).contains_key(k) implies sessions_of(s)[k] == m[k] by {
        let c = choose|x: int| 0 <= x < s.len() && s[x].state@ == k;
        lemma_sessions_index(s, c);
    }
    assert(sessions_of(s) =~= m);
}

proof fn lemma_sessions_remove(s: Seq<PendingAuthorization>, i: int)
    requires
        unique_states(s),
        0 <= i < s.len(),
    ensures
        unique_states(s.remove(i)),
        sessions_of(s.remove(i)) == sessions_of(s).remove(s[i].state@),
{
    let r = s.remove(i);
    let key = s[i].state@;
    assert forall|a: int, b: int| 0 <= a < b < r.len() implies #[trigger] r[a].state@ != #[trigger] r[b].state@ by {
        let a2 = if a < i { a } else { a + 1 };
        let b2 = if b < i { b } else { b + 1 };
        assert(r[a] == s[a2] && r[b] == s[b2]);
    }
    let m = sessions_of(s).remove(key);
    assert forall|x: int| 0 <= x < r.len() implies m.contains_key(#[trigger] r[x].state@) && m[r[x].state@]
        == pending_view(r[x]) by {
        let x2 = if x < i { x } else { x + 1 };
        assert(r[x] == s[x2]);
        lemma_sessions_index(s, x2);
    }
    assert forall|k: Seq<char>| #[trigger] m.contains_key(k) implies exists|x: int| 0 <= x < r.len() && r[x].state@ == k by {
        let c = choose|x: int| 0 <= x < s.len() && s[x].state@ == k;
        if c < i {
            assert(r[c] == s[c]);
        } else {
            assert(r[c - 1] == s[c]);
        }
    }
    lemma_sessions_ext(r, m);
}

proof fn lemma_sessions_update(s: Seq<PendingAuthorization>, i: int, e: PendingAuthorization)
    requires
        unique_states(s),
        0 <= i < s.len(),
        e.state@ == s[i].state@,
    ensures
        unique_states(s.update(i, e)),
        sessions_of(s.update(i, e)) == sessions_of(s).insert(e.state@, pending_view(e)),
{
    let r = s.update(i, e);
    assert forall|a: int, b: int| 0 <= a < b < r.len() implies #[trigger] r[a].state@ != #[trigger] r[b].state@ by {
        assert(r[a].state@ == s[a].state@ && r[b].state@ == s[b].state@);
    }
    let m = sessions_of(s).insert(e.state@, pending_view(e));
    assert forall|x: int| 0 <= x < r.len() implies m.contains_key(#[trigger] r[x].state@) && m[r[x].state@]
        == pending_view(r[x]) by {
        if x != i {
            lemma_sessions_index(s, x);
        }
    }
    assert forall|k: Seq<char>| #[trigger] m.contains_key(k) implies exists|x: int| 0 <= x < r.len() && r[x].state@ == k by {
        if k == e.state@ {
            assert(r[i].state@ == k);
        } else {
            let c = choose|x: int| 0 <= x < s.len() && s[x].state@ == k;
            assert(r[c].state@ == k);
        }
    }
    lemma_sessions_ext(r, m);
}

proof fn lemma_sessions_push(s: Seq<PendingAuthorization>, e: PendingAuthorization)
    requires
        unique_states(s),
        !sessions_of(s).contains_key(e.state@),
    ensures
        unique_states(s.push(e)),
        sessions_of(s.push(e)) == sessions_of(s).insert(e.state@, pending_view(e)),
{
    let r = s.push(e);
    let n = s.len() as int;
    assert forall|a: int, b: int| 0 <= a < b < r.len() implies #[trigger] r[a].state@ != #[trigger] r[b].state@ by {
        if b == n {
            assert(r[a] == s[a]);
            if s[a].state@ == e.state@ {
                assert(sessions_of(s).contains_key(e.state@));
            }
        } else {
            assert(r[a] == s[a] && r[b] == s[b]);
        }
    }
    let m = sessions_of(s).insert(e.state@, pending_view(e));
    assert forall|x: int| 0 <= x < r.len() implies m.contains_key(#[trigger] r[x].state@) && m[r[x].state@]
        == pending_view(r[x]) by {
        if x < n {
            assert(r[x] == s[x]);
            lemma_sessions_index(s, x);
        }
    }
    assert forall|k: Seq<char>| #[trigger] m.contains_key(k) implies exists|x: int| 0 <= x < r.len() && r[x].state@ == k by {
        if k == e.state@ {
            assert(r[n].state@ == k);
        } else {
            let c = choose|x: int| 0 <= x < s.len() && s[x].state@ == k;
            assert(r[c] == s[c]);
        }
    }
    lemma_sessions_ext(r, m);
}

/// Starting a completion of `state` at `now`: the activations after it, and whether it may go
/// ahead (see [`PendingAuthorizationStore::begin_completion`]).
pub open spec fn begin_transition(sessions: Map<Seq<char>, PendingView>, state: Seq<char>, now: u64) -> (
    Map<Seq<char>, PendingView>,
    Result<(), PendingAuthorizationError>,
) {
    if !sessions.contains_key(state) {
        (sessions, Err(PendingAuthorizationError::Missing))
    } else if sessions[state].expires_at <= now {
        (sessions.remove(state), Err(PendingAuthorizationError::Expired))
    } else if sessions[state].completion_in_progress {
        (sessions, Err(PendingAuthorizationError::CompletionInProgress))
    } else {
        (sessions.insert(state, PendingView { completion_in_progress: true, ..sessions[state] }), Ok(()))
    }
}

/// Ending a completion of `state` at `now` (see [`PendingAuthorizationStore::finish_completion`]).
pub open spec fn finish_transition(
    sessions: Map<Seq<char>, PendingView>,
    state: Seq<char>,
    succeeded: bool,
    now: u64,
) -> Map<Seq<char>, PendingView> {
    if !sessions.contains_key(state) {
        sessions
    } else if succeeded || sessions[state].expires_at <= now {
        sessions.remove(state)
    } else {
        sessions.insert(state, PendingView { completion_in_progress: false, ..sessions[state] })
    }
}

/// A cancelled activation stays gone: a completion that was under way when it was cancelled
/// cannot bring it back, and completing it again finds nothing.
pub proof fn lemma_cancel_is_final(
    sessions: Map<Seq<char>, PendingView>,
    state: Seq<char>,
    succeeded: bool,
    now: u64,
    later: u64,
)
    ensures
        !finish_transition(sessions.remove(state), state, succeeded, now).contains_key(state),
        begin_transition(finish_transition(sessions.remove(state), state, succeeded, now), state, later).1
            == Err::<(), PendingAuthorizationError>(PendingAuthorizationError::Missing),
{
}

/// Completion is single-flight: once a completion of an activation has begun, another one is
/// refused until the first ends (or the activation expires).
pub proof fn lemma_completion_single_flight(sessions: Map<Seq<char>, PendingView>, state: Seq<char>, now: u64, later: u64)
    requires
        begin_transition(sessions, state, now).1 is Ok,
    ensures
        begin_transition(begin_transition(sessions, state, now).0, state, later).1 == Err::<(), PendingAuthorizationError>(
            if sessions[state].expires_at <= later {
                PendingAuthorizationError::Expired
            } else {
                PendingAuthorizationError::CompletionInProgress
            },
        ),
{
}

/// A failed completion can be retried while the activation has not expired, and a successful
/// one ends the activation.
pub proof fn lemma_completion_retry(
    sessions: Map<Seq<char>, PendingView>,
    state: Seq<char>,
    now: u64,
    ended: u64,
    later: u64,
)
    requires
        begin_transition(sessions, state, now).1 is Ok,
    ensures
        ended < sessions[state].expires_at && later < sessions[state].expires_at ==> begin_transition(
            finish_transition(begin_transition(sessions, state, now).0, state, false, ended),
            state,
            later,
        ).1 is Ok,
        begin_transition(finish_transition(begin_transition(sessions, state, now).0, state, true, ended), state, later).1
            == Err::<(), PendingAuthorizationError>(PendingAuthorizationError::Missing),
{
}

/// The device activations that are pending: at most a capacity of them, each for a limited
/// time, and each completed by one attempt at a time.
pub struct PendingAuthorizationStore {
    entries: Vec<PendingAuthorization>,
    capacity: usize,
    ttl_ms: u64,
    next_ordinal: u64,
}

impl PendingAuthorizationStore {
    /// The pending activations by state.
    pub closed spec fn sessions(&self) -> Map<Seq<char>, PendingView> {
        sessions_of(self.entries@)
    }

    /// How many activations are pending.
    pub closed spec fn size(&self) -> nat {
        self.entries@.len()
    }

    /// How many activations may be pending at once.
    pub closed spec fn capacity_limit(&self) -> nat {
        self.capacity as nat
    }

    /// How long an activation stays pending.
    pub closed spec fn ttl(&self) -> u64 {
        self.ttl_ms
    }

    /// The ordinal of the latest activation.
    pub closed spec fn latest_ordinal(&self) -> u64 {
        self.next_ordinal
    }

    /// No state occurs twice, and no more activations are pending than the capacity allows.
    pub closed spec fn well_formed(&self) -> bool {
        &&& unique_states(self.entries@)
        &&& self.entries@.len() <= self.capacity
        &&& self.capacity >= 1
    }

    /// A store for `capacity` activations (at least one) that each stay pending `ttl_ms`.
    pub fn new(capacity: usize, ttl_ms: u64) -> (store: Self)
        ensures
            store.well_formed(),
            store.sessions() == Map::<Seq<char>, PendingView>::empty(),
            store.size() == 0,
            store.capacity_limit() == if capacity >= 1 { capacity as nat } else { 1 },
            store.ttl() == ttl_ms,
            store.latest_ordinal() == 0,
    {
        let store = PendingAuthorizationStore {
            entries: Vec::new(),
            capacity: if capacity >= 1 { capacity } else { 1 },
            ttl_ms,
            next_ordinal: 0,
        };
        assert(store.sessions() =~= Map::<Seq<char>, PendingView>::empty());
        store
    }

    fn position(&self, state: &str) -> (found: Option<usize>)
        requires
            self.well_formed(),
        ensures
            match found {
                Some(i) => i < self.entries@.len() && self.entries@[i as int].state@ == state@,
                None => !self.sessions().contains_key(state@),
            },
    {
        let mut i: usize = 0;
        while i < self.entries.len()
            invariant
                i <= self.entries@.len(),
                forall|j: int| 0 <= j < i ==> self.entries@[j].state@ != state@,
            decreases self.entries@.len() - i,
        {
            if text_eq(self.entries[i].state.as_str(), state) {
                return Some(i);
            }
            i = i + 1;
        }
        None
    }

    fn remove_at(&mut self, i: usize) -> (removed: PendingAuthorization)
        requires
            old(self).well_formed(),
            i < old(self).entries@.len(),
        ensures
            final(self).well_formed(),
            removed == old(self).entries@[i as int],
            final(self).entries@ == old(self).entries@.remove(i as int),
            final(self).sessions() == old(self).sessions().remove(removed.state@),
            final(self).size() + 1 == old(self).size(),
            final(self).capacity == old(self).capacity,
            final(self).ttl_ms == old(self).ttl_ms,
            final(self).next_ordinal == old(self).next_ordinal,
    {
        proof {
            lemma_sessions_remove(self.entries@, i as int);
        }
        self.entries.remove(i)
    }

    /// Whether an activation is pending and has not expired at `now`; an expired one is dropped.
    pub fn contains_active(&mut self, state: &str, now: u64) -> (active: bool)
        requires
            old(self).well_formed(),
        ensures
            final(self).well_formed(),
            active == (old(self).sessions().contains_key(state@) && old(self).sessions()[state@].expires_at > now),
            final(self).sessions() == if active {
                old(self).sessions()
            } else {
                old(self).sessions().remove(state@)
            },
            final(self).capacity_limit() == old(self).capacity_limit(),
            final(self).ttl() == old(self).ttl(),
            final(self).latest_ordinal() == old(self).latest_ordinal(),
    {
        match self.position(state) {
            Some(i) => {
                proof {
                    lemma_sessions_index(self.entries@, i as int);
                }
                if self.entries[i].expires_at > now {
                    true
                } else {
                    let _ = self.remove_at(i);
                    false
                }
            },
            None => {
                assert(old(self).sessions().remove(state@) =~= old(self).sessions());
                false
            },
        }
    }

    /// Drops an activation; whether there was one.
    pub fn cancel(&mut self, state: &str) -> (cancelled: bool)
        requires
            old(self).well_formed(),
        ensures
            final(self).well_formed(),
            cancelled == old(self).sessions().contains_key(state@),
            final(self).sessions() == old(self).sessions().remove(state@),
            final(self).capacity_limit() == old(self).capacity_limit(),
            final(self).ttl() == old(self).ttl(),
            final(self).latest_ordinal() == old(self).latest_ordinal(),
    {
        match self.position(state) {
            Some(i) => {
                proof {
                    lemma_sessions_index(self.entries@, i as int);
                }
                let _ = self.remove_at(i);
                true
            },
            None => {
                assert(old(self).sessions().remove(state@) =~= old(self).sessions());
                false
            },
        }
    }

    /// Starts completing an activation: refused when there is none, when it expired (it is then
    /// dropped) or while another completion of it runs; otherwise marked as being completed.
    pub fn begin_completion(&mut self, state: &str, now: u64) -> (credentials: Result<
        PendingAuthorizationCredentials,
        PendingAuthorizationError,
    >)
        requires
            old(self).well_formed(),
        ensures
            final(self).well_formed(),
            final(self).capacity_limit() == old(self).capacity_limit(),
            final(self).ttl() == old(self).ttl(),
            final(self).latest_ordinal() == old(self).latest_ordinal(),
            !old(self).sessions().contains_key(state@) ==> credentials == Err::<
                PendingAuthorizationCredentials,
                PendingAuthorizationError,
            >(PendingAuthorizationError::Missing) && final(self).sessions() == old(self).sessions(),
            old(self).sessions().contains_key(state@) && old(self).sessions()[state@].expires_at <= now
                ==> credentials == Err::<PendingAuthorizationCredentials, PendingAuthorizationError>(
                PendingAuthorizationError::Expired,
            ) && final(self).sessions() == old(self).sessions().remove(state@),
            old(self).sessions().contains_key(state@) && old(self).sessions()[state@].expires_at > now
                && old(self).sessions()[state@].completion_in_progress ==> credentials == Err::<
                PendingAuthorizationCredentials,
                PendingAuthorizationError,
            >(PendingAuthorizationError::CompletionInProgress) && final(self).sessions() == old(
                self,
            ).sessions(),
            final(self).sessions() == begin_transition(old(self).sessions(), state@, now).0,
            (credentials is Ok) == (begin_transition(old(self).sessions(), state@, now).1 is Ok),
            credentials matches Err(e) ==> begin_transition(old(self).sessions(), state@, now).1 == Err::<
                (),
                PendingAuthorizationError,
            >(e),
            old(self).sessions().contains_key(state@) && old(self).sessions()[state@].expires_at > now
                && !old(self).sessions()[state@].completion_in_progress ==> match credentials {
                Ok(c) => c.pkce_verifier@ == old(self).sessions()[state@].pkce_verifier
                    && c.redirect_uri@ == old(self).sessions()[state@].redirect_uri
                    && final(self).sessions() == old(self).sessions().insert(
                    state@,
                    PendingView { completion_in_progress: true, ..old(self).sessions()[state@] },
                ),
                Err(_) => false,
            },
    {
        let i = match self.position(state) {
            Some(i) => i,
            None => {
                return Err(PendingAuthorizationError::Missing);
            },
        };
        proof {
            lemma_sessions_index(self.entries@, i as int);
        }
        if self.entries[i].expires_at <= now {
            let _ = self.remove_at(i);
            return Err(PendingAuthorizationError::Expired);
        }
        if self.entries[i].completion_in_progress {
            return Err(PendingAuthorizationError::CompletionInProgress);
        }
        let entry = self.entries.remove(i);
        let credentials = PendingAuthorizationCredentials {
            pkce_verifier: entry.pkce_verifier.clone(),
            redirect_uri: entry.redirect_uri.clone(),
        };
        let updated = PendingAuthorization { completion_in_progress: true, ..entry };
        let ghost before = old(self).entries@;
        self.entries.insert(i, updated);
        proof {
            assert(self.entries@ =~= before.update(i as int, updated));
            lemma_sessions_update(before, i as int, updated);
            assert(pending_view(updated) == PendingView { completion_in_progress: true, ..old(self).sessions()[state@] });
        }
        Ok(credentials)
    }

    /// Ends a completion: a successful one drops the activation; a failed one lets it be
    /// completed again, unless it expired meanwhile, when it is dropped. An activation that is
    /// no longer pending stays gone.
    pub fn finish_completion(&mut self, state: &str, succeeded: bool, now: u64)
        requires
            old(self).well_formed(),
        ensures
            final(self).well_formed(),
            final(self).capacity_limit() == old(self).capacity_limit(),
            final(self).ttl() == old(self).ttl(),
            final(self).latest_ordinal() == old(self).latest_ordinal(),
            final(self).sessions() == finish_transition(old(self).sessions(), state@, succeeded, now),
    {
        let i = match self.position(state) {
            Some(i) => i,
            None => {
                return;
            },
        };
        proof {
            lemma_sessions_index(self.entries@, i as int);
        }
        if succeeded || self.entries[i].expires_at <= now {
            let _ = self.remove_at(i);
            return;
        }
        let entry = self.entries.remove(i);
        let updated = PendingAuthorization { completion_in_progress: false, ..entry };
        let ghost before = old(self).entries@;
        self.entries.insert(i, updated);
        proof {
            assert(self.entries@ =~= before.update(i as int, updated));
            lemma_sessions_update(before, i as int, updated);
            assert(pending_view(updated) == PendingView { completion_in_progress: false, ..old(self).sessions()[state@] });
        }
    }

    /// The position of the activation to evict: the oldest one, by ordinal, the smallest state
    /// among equals.
    fn oldest(&self) -> (index: usize)
        requires
            self.entries@.len() > 0,
        ensures
            index < self.entries@.len(),
            forall|x: int| 0 <= x < self.entries@.len() ==> self.entries@[index as int].ordinal
                <= #[trigger] self.entries@[x].ordinal,
    {
        let mut best: usize = 0;
        let mut j: usize = 1;
        while j < self.entries.len()
            invariant
                best < j <= self.entries@.len(),
                forall|x: int| 0 <= x < j ==> self.entries@[best as int].ordinal
                    <= #[trigger] self.entries@[x].ordinal,
            decreases self.entries@.len() - j,
        {
            let candidate = self.entries[j].ordinal;
            let current = self.entries[best].ordinal;
            if candidate < current {
                best = j;
            } else if candidate == current {
                match text_order(self.entries[j].state.as_str(), self.entries[best].state.as_str()) {
                    TextOrder::Less => {
                        best = j;
                    },
                    _ => {},
                }
            }
            j = j + 1;
        }
        best
    }

    /// Starts an activation at `now`: expired activations are dropped first, then one with
    /// the same state, then the oldest ones while the store is full; the states dropped are
    /// returned, the expired ones first and in order.
    pub fn insert(
        &mut self,
        state: String,
        pkce_verifier: String,
        redirect_uri: String,
        now: u64,
    ) -> (removed: Vec<String>)
        requires
            old(self).well_formed(),
            now + old(self).ttl() <= u64::MAX,
        ensures
            final(self).well_formed(),
            final(self).capacity_limit() == old(self).capacity_limit(),
            final(self).ttl() == old(self).ttl(),
            final(self).latest_ordinal() == (if old(self).latest_ordinal() == u64::MAX {
                0
            } else {
                old(self).latest_ordinal() + 1
            }),
            final(self).sessions().contains_key(state@),
            final(self).sessions()[state@] == (PendingView {
                pkce_verifier: pkce_verifier@,
                redirect_uri: redirect_uri@,
                expires_at: (now + old(self).ttl()) as u64,
                completion_in_progress: false,
                ordinal: final(self).latest_ordinal(),
            }),
            forall|k: Seq<char>|
                k != state@ && #[trigger] final(self).sessions().contains_key(k) ==> old(self).sessions().contains_key(k)
                    && old(self).sessions()[k].expires_at > now && final(self).sessions()[k] == old(
                    self,
                ).sessions()[k],
            forall|k: Seq<char>, k2: Seq<char>|
                k != state@ && k2 != state@ && #[trigger] old(self).sessions().contains_key(k)
                    && old(self).sessions()[k].expires_at > now && !final(self).sessions().contains_key(k)
                    && #[trigger] final(self).sessions().contains_key(k2) ==> old(self).sessions()[k].ordinal
                    <= old(self).sessions()[k2].ordinal,
            forall|k: Seq<char>|
                k != state@ && #[trigger] old(self).sessions().contains_key(k) && old(self).sessions()[k].expires_at > now
                    && !final(self).sessions().contains_key(k) ==> final(self).size() == final(self).capacity_limit(),
            forall|k: Seq<char>|
                #[trigger] texts(removed@).contains(k) <==> old(self).sessions().contains_key(k) && (k == state@
                    || !final(self).sessions().contains_key(k)),
    {
        let ghost s0 = self.sessions();
        let mut removed: Vec<String> = Vec::new();
        let mut i: usize = 0;
        while i < self.entries.len()
            invariant
                self.well_formed(),
                self.capacity == old(self).capacity,
                self.ttl_ms == old(self).ttl_ms,
                self.next_ordinal == old(self).next_ordinal,
                s0 == old(self).sessions(),
                i <= self.entries@.len(),
                forall|k: Seq<char>| #[trigger] self.sessions().contains_key(k) ==> s0.contains_key(k)
                    && self.sessions()[k] == s0[k],
                forall|k: Seq<char>| #[trigger] s0.contains_key(k) && s0[k].expires_at > now ==> self.sessions().contains_key(k),
                forall|j: int| 0 <= j < i ==> #[trigger] self.entries@[j].expires_at > now,
                strictly_sorted(texts(removed@)),
                forall|k: Seq<char>| #[trigger] texts(removed@).contains(k) <==> s0.contains_key(k)
                    && !self.sessions().contains_key(k),
            decreases self.entries@.len() - i,
        {
            if self.entries[i].expires_at <= now {
                let ghost before = self.sessions();
                let ghost before_entries = self.entries@;
                let ghost before_removed = texts(removed@);
                proof {
                    lemma_sessions_index(self.entries@, i as int);
                }
                let entry = self.remove_at(i);
                proof {
                    assert(!before_removed.contains(entry.state@)) by {
                        if before_removed.contains(entry.state@) {
                            assert(!before.contains_key(entry.state@));
                        }
                    }
                }
                insert_sorted_unique(&mut removed, entry.state);
                proof {
                    assert forall|k: Seq<char>| #[trigger] texts(removed@).contains(k) <==> s0.contains_key(k)
                        && !self.sessions().contains_key(k) by {
                        assert(texts(removed@).to_set().contains(k) == texts(removed@).contains(k));
                        assert(before_removed.to_set().contains(k) == before_removed.contains(k));
                    }
                    assert forall|j: int| 0 <= j < i implies #[trigger] self.entries@[j].expires_at > now by {
                        assert(self.entries@[j] == before_entries[j]);
                    }
                }
            } else {
                i = i + 1;
            }
        }
        proof {
            assert forall|k: Seq<char>| #[trigger] self.sessions().contains_key(k) implies self.sessions()[k].expires_at > now by {
                let c = choose|x: int| 0 <= x < self.entries@.len() && self.entries@[x].state@ == k;
                lemma_sessions_index(self.entries@, c);
            }
        }
        match self.position(state.as_str()) {
            Some(i) => {
                proof {
                    lemma_sessions_index(self.entries@, i as int);
                }
                let ghost before = self.sessions();
                let ghost before_removed = texts(removed@);
                let _ = self.remove_at(i);
                let ghost r0 = removed@;
                removed.push(state.clone());
                proof {
                    assert(texts(removed@) =~= texts(r0).push(state@));
                    assert forall|k: Seq<char>| #[trigger] texts(removed@).contains(k) <==> s0.contains_key(k)
                        && !self.sessions().contains_key(k) by {
                        if texts(removed@).contains(k) && k != state@ {
                            let x = choose|x: int| 0 <= x < texts(removed@).len() && texts(removed@)[x] == k;
                            assert(texts(r0)[x] == k);
                        }
                        if before_removed.contains(k) {
                            let x = choose|x: int| 0 <= x < before_removed.len() && before_removed[x] == k;
                            assert(texts(removed@)[x] == k);
                        }
                        if k == state@ {
                            assert(texts(removed@)[r0.len() as int] == k);
                            assert(before.contains_key(k));
                        }
                        if k != state@ {
                            assert(self.sessions().contains_key(k) == before.contains_key(k));
                        }
                    }
                }
            },
            None => {},
        }
        let ghost p1 = self.sessions();
        let ghost evicted_any = false;
        while self.entries.len() >= self.capacity
            invariant
                self.well_formed(),
                self.capacity == old(self).capacity,
                self.ttl_ms == old(self).ttl_ms,
                self.next_ordinal == old(self).next_ordinal,
                !self.sessions().contains_key(state@),
                forall|k: Seq<char>| #[trigger] self.sessions().contains_key(k) ==> p1.contains_key(k)
                    && self.sessions()[k] == p1[k],
                forall|k: Seq<char>| #[trigger] p1.contains_key(k) ==> s0.contains_key(k) && p1[k] == s0[k]
                    && s0[k].expires_at > now,
                forall|k: Seq<char>| #[trigger] s0.contains_key(k) && s0[k].expires_at > now && k != state@
                    ==> p1.contains_key(k),
                forall|e: Seq<char>, k: Seq<char>|
                    #[trigger] p1.contains_key(e) && !self.sessions().contains_key(e) && #[trigger] self.sessions().contains_key(k)
                        ==> p1[e].ordinal <= p1[k].ordinal,
                evicted_any ==> self.entries@.len() + 1 >= self.capacity,
                !evicted_any ==> self.sessions() == p1,
                forall|k: Seq<char>| #[trigger] texts(removed@).contains(k) <==> s0.contains_key(k)
                    && !self.sessions().contains_key(k),
            decreases self.entries@.len(),
        {
            let m = self.oldest();
            proof {
                lemma_sessions_index(self.entries@, m as int);
                assert forall|k: Seq<char>| #[trigger] self.sessions().contains_key(k) implies self.sessions()[self.entries@[m as int].state@].ordinal <= self.sessions()[k].ordinal by {
                    let c = choose|x: int| 0 <= x < self.entries@.len() && self.entries@[x].state@ == k;
                    lemma_sessions_index(self.entries@, c);
                }
            }
            let ghost before = self.sessions();
            let ghost r0 = removed@;
            let entry = self.remove_at(m);
            removed.push(entry.state);
            proof {
                evicted_any = true;
                assert(texts(removed@) =~= texts(r0).push(before.dom().choose()) || true);
                assert(texts(removed@) =~= texts(r0).push(removed@[r0.len() as int]@));
                assert forall|k: Seq<char>| #[trigger] texts(removed@).contains(k) <==> s0.contains_key(k)
                    && !self.sessions().contains_key(k) by {
                    if texts(removed@).contains(k) && k != entry.state@ {
                        let x = choose|x: int| 0 <= x < texts(removed@).len() && texts(removed@)[x] == k;
                        assert(texts(r0)[x] == k);
                    }
                    if texts(r0).contains(k) {
                        let x = choose|x: int| 0 <= x < texts(r0).len() && texts(r0)[x] == k;
                        assert(texts(removed@)[x] == k);
                    }
                    if k == entry.state@ {
                        assert(texts(removed@)[r0.len() as int] == k);
                    }
                }
            }
        }
        proof {
            assert(self.entries@.len() < self.capacity);
        }
        self.next_ordinal = self.next_ordinal.wrapping_add(1);
        let expires_at = now + self.ttl_ms;
        let entry = PendingAuthorization {
            state,
            pkce_verifier,
            redirect_uri,
            expires_at,
            completion_in_progress: false,
            ordinal: self.next_ordinal,
        };
        proof {
            lemma_sessions_push(self.entries@, entry);
        }
        self.entries.push(entry);
        removed
    }

    /// Drops every activation and gives their states, in order.
    pub fn clear(&mut self) -> (states: Vec<String>)
        requires
            old(self).well_formed(),
        ensures
            final(self).well_formed(),
            final(self).sessions() == Map::<Seq<char>, PendingView>::empty(),
            final(self).capacity_limit() == old(self).capacity_limit(),
            final(self).ttl() == old(self).ttl(),
            final(self).latest_ordinal() == old(self).latest_ordinal(),
            strictly_sorted(texts(states@)),
            texts(states@).to_set() == old(self).sessions().dom(),
            states@.len() == old(self).size(),
    {
        let mut states: Vec<String> = Vec::new();
        let ghost all = self.entries@;
        let mut i: usize = 0;
        while i < self.entries.len()
            invariant
                self.entries@ == all,
                unique_states(all),
                i <= all.len(),
                strictly_sorted(texts(states@)),
                states@.len() == i,
                texts(states@).to_set() == Set::new(|k: Seq<char>| exists|j: int| 0 <= j < i && all[j].state@ == k),
            decreases all.len() - i,
        {
            let ghost before = texts(states@).to_set();
            proof {
                if before.contains(all[i as int].state@) {
                    let j = choose|j: int| 0 <= j < i && all[j].state@ == all[i as int].state@;
                    assert(all[j].state@ != all[i as int].state@);
                }
                assert(!texts(states@).contains(all[i as int].state@)) by {
                    if texts(states@).contains(all[i as int].state@) {
                        assert(before.contains(all[i as int].state@));
                    }
                }
            }
            insert_sorted_unique(&mut states, self.entries[i].state.clone());
            i = i + 1;
            proof {
                assert(texts(states@).to_set() =~= Set::new(|k: Seq<char>| exists|j: int| 0 <= j < i && all[j].state@ == k)) by {
                    assert forall|k: Seq<char>| #[trigger] before.insert(all[i - 1].state@).contains(k) == (exists|j: int| 0 <= j < i && all[j].state@ == k) by {
                        if exists|j: int| 0 <= j < i && all[j].state@ == k {
                            let j = choose|j: int| 0 <= j < i && all[j].state@ == k;
                            if j < i - 1 {
                                assert(before.contains(k));
                            }
                        }
                    }
                }
            }
        }
        self.entries = Vec::new();
        proof {
            assert(texts(states@).to_set() =~= sessions_of(all).dom());
            assert(self.sessions() =~= Map::<Seq<char>, PendingView>::empty());
        }
        states
    }
}

impl Default for PendingAuthorizationStore {
    fn default() -> (store: Self)
        ensures
            store.well_formed(),
            store.sessions() == Map::<Seq<char>, PendingView>::empty(),
            store.capacity_limit() == AUTHORIZATION_SESSION_CAPACITY,
            store.ttl() == AUTHORIZATION_SESSION_TTL_MS,
    {
        PendingAuthorizationStore::new(AUTHORIZATION_SESSION_CAPACITY, AUTHORIZATION_SESSION_TTL_MS)
    }
}

} // verus!
