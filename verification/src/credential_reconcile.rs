use vstd::prelude::*;
use vstd::utf8::encode_utf8;

use crate::credentials::{
    binding_views, credential_id, credential_id_for, program_triples, CredentialRecord, CredentialSet,
    RecordView, without_program,
};
use crate::digest::{hex_of, push_hex, sha256, sha256_of};
use crate::sorted_texts::strictly_sorted;
use crate::text::{lemma_text_less_irreflexive, lemma_text_less_total, lemma_text_less_transitive, text_eq, text_less};
use crate::license_policy::ErrorCode;
use crate::managed::{ConfigSource, SourceAuthentication};

verus! {

/// Why the credentials of remote configuration sources cannot be used or changed.
#[derive(PartialEq, Eq, Structural, Clone, Copy, Debug)]
pub enum CredentialError {
    /// A source needs a password that was neither entered nor stored.
    Missing,
    /// The stored credentials, or a program's bindings to them, are inconsistent.
    Corrupt,
    /// The record of an interrupted credential update is inconsistent.
    CorruptJournal,
}

impl CredentialError {
    /// The error code under which the error is reported.
    pub fn code(&self) -> (code: ErrorCode)
        ensures
            code == ErrorCode::Storage,
    {
        ErrorCode::Storage
    }

    /// The message shown for the error.
    pub fn message(&self) -> (text: &'static str)
        ensures
            text@ == match *self {
                CredentialError::Missing => "The remote configuration credential is unavailable"@,
                CredentialError::Corrupt => "Remote configuration credentials are corrupt"@,
                CredentialError::CorruptJournal => "Configuration credential recovery data is corrupt"@,
            },
    {
        match self {
            CredentialError::Missing => "The remote configuration credential is unavailable",
            CredentialError::Corrupt => "Remote configuration credentials are corrupt",
            CredentialError::CorruptJournal => "Configuration credential recovery data is corrupt",
        }
    }

    /// What the user can do about the error, when there is something.
    pub fn details(&self) -> (text: Option<&'static str>)
        ensures
            text == match *self {
                CredentialError::Missing => Some("Enter the Basic authentication password again and save the program"),
                _ => None,
            },
    {
        match self {
            CredentialError::Missing => Some("Enter the Basic authentication password again and save the program"),
            _ => None,
        }
    }
}

pub open spec fn text_option(o: Option<String>) -> Option<Seq<char>> {
    match o {
        Some(s) => Some(s@),
        None => None,
    }
}

/// The Basic authentication of a remote source: its source id, user name, stored credential
/// identifier and entered password.
pub open spec fn basic_auth(source: ConfigSource) -> Option<(Seq<char>, Seq<char>, Option<Seq<char>>, Option<Seq<char>>)> {
    match source {
        ConfigSource::Remote { id, authentication: Some(SourceAuthentication::Basic { username, credential_id, password }), .. } => Some(
            (id@, username@, text_option(credential_id), text_option(password)),
        ),
        _ => None,
    }
}

/// A source with its credential taken out: what stays of it, and its user name when it
/// authenticates.
pub open spec fn source_shape(source: ConfigSource) -> (bool, Seq<char>, Seq<char>, bool, Seq<char>, Option<Seq<char>>) {
    match source {
        ConfigSource::Local { id, name, enabled, path } => (false, id@, name@, enabled, path@, None),
        ConfigSource::Remote { id, name, enabled, url, authentication } => (true, id@, name@, enabled, url@, match authentication {
            Some(SourceAuthentication::Basic { username, .. }) => Some(username@),
            None => None,
        }),
    }
}

/// The credential a source stores after reconciling: the password entered for it, or else the
/// one stored for it under the same user name; none when there is neither.
pub open spec fn source_credential(previous: Map<Seq<char>, RecordView>, program: Seq<char>, source: ConfigSource) -> Option<
    (Seq<char>, RecordView),
> {
    match basic_auth(source) {
        Some((id, username, _, password)) => {
            let derived = credential_id(encode_utf8(program), encode_utf8(id));
            let stored = if previous.contains_key(derived) && previous[derived].username == username {
                Some(previous[derived].password)
            } else {
                None
            };
            let chosen = match password {
                Some(p) => if p.len() > 0 {
                    Some(p)
                } else {
                    stored
                },
                None => stored,
            };
            match chosen {
                Some(p) => Some((derived, RecordView { program_id: program, source_id: id, username, password: p })),
                None => None,
            }
        },
        None => None,
    }
}

/// The credentials to store for the sources, in source order; none when one is missing.
pub open spec fn planned_credentials(previous: Map<Seq<char>, RecordView>, program: Seq<char>, sources: Seq<ConfigSource>) -> Option<
    Seq<(Seq<char>, RecordView)>,
>
    decreases sources.len(),
{
    if sources.len() == 0 {
        Some(Seq::empty())
    } else {
        match planned_credentials(previous, program, sources.drop_last()) {
            None => None,
            Some(plan) => if basic_auth(sources.last()) is None {
                Some(plan)
            } else {
                match source_credential(previous, program, sources.last()) {
                    Some(c) => Some(plan.push(c)),
                    None => None,
                }
            },
        }
    }
}

/// Credentials stored one after another.
pub open spec fn stored_in_order(base: Map<Seq<char>, RecordView>, plan: Seq<(Seq<char>, RecordView)>) -> Map<
    Seq<char>,
    RecordView,
>
    decreases plan.len(),
{
    if plan.len() == 0 {
        base
    } else {
        stored_in_order(base, plan.drop_last()).insert(plan.last().0, plan.last().1)
    }
}

/// A source as it is saved after reconciling: an authenticating source names its credential
/// and holds no password; nothing else changes.
pub open spec fn source_reconciled(before: ConfigSource, after: ConfigSource, program: Seq<char>) -> bool {
    &&& source_shape(after) == source_shape(before)
    &&& match basic_auth(before) {
        Some((id, username, _, _)) => basic_auth(after) == Some(
            (id, username, Some(credential_id(encode_utf8(program), encode_utf8(id))), None::<Seq<char>>),
        ),
        None => basic_auth(after) is None,
    }
}

fn reconciled_source(source: ConfigSource, derived: Option<String>, Ghost(program): Ghost<Seq<char>>) -> (after: ConfigSource)
    requires
        match basic_auth(source) {
            Some((id, _, _, _)) => derived matches Some(d) && d@ == credential_id(encode_utf8(program), encode_utf8(id)),
            None => true,
        },
    ensures
        source_reconciled(source, after, program),
{
    match source {
        ConfigSource::Remote { id, name, enabled, url, authentication } => match authentication {
            Some(SourceAuthentication::Basic { username, credential_id: _, password: _ }) => ConfigSource::Remote {
                id,
                name,
                enabled,
                url,
                authentication: Some(SourceAuthentication::Basic { username, credential_id: derived, password: None }),
            },
            None => ConfigSource::Remote { id, name, enabled, url, authentication: None },
        },
        other => other,
    }
}

/// The credential identifier of a source of program `p`.
pub open spec fn derived_id(p: Seq<char>, source: Seq<char>) -> Seq<char> {
    credential_id(encode_utf8(p), encode_utf8(source))
}

proof fn lemma_plan_shape(
    previous: Map<Seq<char>, RecordView>,
    p: Seq<char>,
    before: Seq<ConfigSource>,
    after: Seq<ConfigSource>,
)
    requires
        planned_credentials(previous, p, before) is Some,
        after.len() == before.len(),
        forall|i: int| 0 <= i < before.len() ==> source_reconciled(#[trigger] before[i], after[i], p),
    ensures
        ({
            let plan = planned_credentials(previous, p, before)->Some_0;
            let bound = bound_sources(before);
            &&& plan.len() == bound.len()
            &&& bound_sources(after).len() == bound.len()
            &&& forall|i: int|
                0 <= i < bound.len() ==> {
                    &&& (#[trigger] plan[i]).0 == derived_id(p, bound[i].0)
                    &&& plan[i].1.program_id == p
                    &&& plan[i].1.source_id == bound[i].0
                    &&& plan[i].1.username == bound[i].1
                    &&& bound_sources(after)[i] == (bound[i].0, bound[i].1, Some(derived_id(p, bound[i].0)))
                }
        }),
    decreases before.len(),
{
    if before.len() > 0 {
        let b = before.drop_last();
        let a = after.drop_last();
        assert forall|i: int| 0 <= i < b.len() implies source_reconciled(#[trigger] b[i], a[i], p) by {
            assert(b[i] == before[i] && a[i] == after[i]);
        }
        lemma_plan_shape(previous, p, b, a);
        let x = before.last();
        let y = after.last();
        assert(source_reconciled(before[before.len() - 1], after[before.len() - 1], p));
        let plan = planned_credentials(previous, p, before)->Some_0;
        let shorter = planned_credentials(previous, p, b)->Some_0;
        match basic_auth(x) {
            None => {
                assert(bound_sources(before) =~= bound_sources(b));
                assert(bound_sources(after) =~= bound_sources(a));
            },
            Some((id, username, _, _)) => {
                assert(basic_auth(y) == Some(
                    (id, username, Some(derived_id(p, id)), None::<Seq<char>>),
                ));
                let c = source_credential(previous, p, x)->Some_0;
                assert(plan == shorter.push(c));
                assert(bound_sources(before) == bound_sources(b) + seq![(id, username, basic_auth(x)->Some_0.2)]);
                assert(bound_sources(after) == bound_sources(a) + seq![(id, username, Some(derived_id(p, id)))]);
            },
        }
    }
}

proof fn lemma_stored_in_order(base: Map<Seq<char>, RecordView>, plan: Seq<(Seq<char>, RecordView)>, k: Seq<char>)
    requires
        forall|i: int, j: int| 0 <= i < j < plan.len() ==> (#[trigger] plan[i]).0 != (#[trigger] plan[j]).0,
    ensures
        forall|i: int|
            0 <= i < plan.len() && (#[trigger] plan[i]).0 == k ==> stored_in_order(base, plan).contains_key(k)
                && stored_in_order(base, plan)[k] == plan[i].1,
        (forall|i: int| 0 <= i < plan.len() ==> (#[trigger] plan[i]).0 != k) ==> {
            &&& stored_in_order(base, plan).contains_key(k) == base.contains_key(k)
            &&& base.contains_key(k) ==> stored_in_order(base, plan)[k] == base[k]
        },
    decreases plan.len(),
{
    if plan.len() > 0 {
        let shorter = plan.drop_last();
        assert forall|i: int, j: int| 0 <= i < j < shorter.len() implies (#[trigger] shorter[i]).0 != (
        #[trigger] shorter[j]).0 by {
            assert(shorter[i] == plan[i] && shorter[j] == plan[j]);
        }
        lemma_stored_in_order(base, shorter, k);
        assert forall|i: int| 0 <= i < plan.len() && (#[trigger] plan[i]).0 == k implies stored_in_order(
            base,
            plan,
        ).contains_key(k) && stored_in_order(base, plan)[k] == plan[i].1 by {
            if i < plan.len() - 1 {
                assert(shorter[i] == plan[i]);
                assert(plan[i].0 != plan[plan.len() - 1].0);
            }
        }
        if forall|i: int| 0 <= i < plan.len() ==> (#[trigger] plan[i]).0 != k {
            assert forall|i: int| 0 <= i < shorter.len() implies (#[trigger] shorter[i]).0 != k by {
                assert(shorter[i] == plan[i]);
            }
            assert(plan[plan.len() - 1].0 != k);
        }
    }
}

/// Saving a program reconciles its credentials so that they match its sources: once the
/// credentials were planned for the sources, every authenticating source names its credential,
/// and the program's stored credentials are exactly one per authenticating source, under its
/// user name and credential identifier. This holds when no two authenticating sources share an
/// identifier and no two of their credential identifiers coincide.
pub proof fn lemma_reconciled_credentials_match(
    previous: Map<Seq<char>, RecordView>,
    p: Seq<char>,
    before: Seq<ConfigSource>,
    after: Seq<ConfigSource>,
)
    requires
        planned_credentials(previous, p, before) is Some,
        after.len() == before.len(),
        forall|i: int| 0 <= i < before.len() ==> source_reconciled(#[trigger] before[i], after[i], p),
        forall|i: int, j: int|
            0 <= i < j < bound_sources(before).len() ==> (#[trigger] bound_sources(before)[i]).0 != (
            #[trigger] bound_sources(before)[j]).0,
        forall|i: int, j: int|
            0 <= i < j < bound_sources(before).len() ==> derived_id(p, (#[trigger] bound_sources(before)[i]).0)
                != derived_id(p, (#[trigger] bound_sources(before)[j]).0),
    ensures
        bindings_consistent(after),
        program_triples(
            stored_in_order(without_program(previous, p), planned_credentials(previous, p, before)->Some_0),
            p,
        ) == binding_set(after),
{
    lemma_plan_shape(previous, p, before, after);
    let plan = planned_credentials(previous, p, before)->Some_0;
    let bound = bound_sources(before);
    let abound = bound_sources(after);
    let base = without_program(previous, p);
    let records = stored_in_order(base, plan);
    assert forall|i: int, j: int| 0 <= i < j < plan.len() implies (#[trigger] plan[i]).0 != (#[trigger] plan[j]).0 by {
        assert(bound[i] == bound_sources(before)[i] && bound[j] == bound_sources(before)[j]);
    }
    assert forall|i: int, j: int| 0 <= i < j < abound.len() implies (#[trigger] abound[i]).0 != (#[trigger] abound[j]).0 by {
        assert(plan[i].1.source_id == bound[i].0 && plan[j].1.source_id == bound[j].0);
        assert(abound[i].0 == bound[i].0 && abound[j].0 == bound[j].0);
    }
    assert forall|i: int| 0 <= i < abound.len() implies (#[trigger] abound[i]).2 is Some by {
        assert(plan[i].1.source_id == bound[i].0);
    }
    assert forall|t: (Seq<char>, Seq<char>, Seq<char>)| #[trigger] program_triples(records, p).contains(t)
        == binding_set(after).contains(t) by {
        lemma_stored_in_order(base, plan, t.2);
        if program_triples(records, p).contains(t) {
            if forall|i: int| 0 <= i < plan.len() ==> (#[trigger] plan[i]).0 != t.2 {
                assert(base.contains_key(t.2));
                assert(base[t.2].program_id != p);
            } else {
                let i = choose|i: int| 0 <= i < plan.len() && (#[trigger] plan[i]).0 == t.2;
                assert(abound[i] == (t.0, t.1, Some(t.2)));
            }
        }
        if binding_set(after).contains(t) {
            let i = choose|i: int| 0 <= i < abound.len() && #[trigger] abound[i] == (t.0, t.1, Some(t.2));
            assert(plan[i].0 == t.2);
        }
    }
    assert(program_triples(records, p) =~= binding_set(after));
}

/// Stores the credentials of a program's remote sources when the program is saved: the
/// program's old credentials are dropped, and each source with Basic authentication stores its
/// entered password, or keeps the one stored for it under the same user name, under the
/// credential identifier derived from the program and source; the source then names that
/// credential and no longer holds the password. Refused, with nothing changed, when a source has
/// neither password.
pub fn reconcile_credentials(credentials: &mut CredentialSet, program_id: &str, sources: &mut Vec<ConfigSource>) -> (reconciled:
    Result<(), CredentialError>)
    requires
        old(credentials).well_formed(),
    ensures
        final(credentials).well_formed(),
        match planned_credentials(old(credentials).records(), program_id@, old(sources)@) {
            Some(plan) => reconciled is Ok && final(credentials).records() == stored_in_order(
                without_program(old(credentials).records(), program_id@),
                plan,
            ) && final(sources)@.len() == old(sources)@.len() && forall|i: int|
                0 <= i < old(sources)@.len() ==> source_reconciled(
                    old(sources)@[i],
                    #[trigger] final(sources)@[i],
                    program_id@,
                ),
            None => reconciled == Err::<(), CredentialError>(CredentialError::Missing) && final(credentials).records()
                == old(credentials).records() && final(sources)@ == old(sources)@,
        },
{
    let ghost previous = credentials.records();
    let ghost p = program_id@;
    // Work out every credential first, so that nothing changes when one is missing.
    let mut plan: Vec<(String, CredentialRecord)> = Vec::new();
    let mut derived_ids: Vec<Option<String>> = Vec::new();
    let mut i: usize = 0;
    proof {
        assert(sources@.subrange(0, 0) =~= Seq::<ConfigSource>::empty());
    }
    while i < sources.len()
        invariant
            i <= sources@.len(),
            credentials.well_formed(),
            previous == credentials.records(),
            p == program_id@,
            derived_ids@.len() == i,
            forall|k: int| 0 <= k < i ==> match basic_auth(#[trigger] sources@[k]) {
                Some((id, _, _, _)) => derived_ids@[k] matches Some(d) && d@ == credential_id(encode_utf8(p), encode_utf8(id)),
                None => true,
            },
            planned_credentials(previous, p, sources@.subrange(0, i as int)) == Some(
                Seq::new(plan@.len(), |k: int| (plan@[k].0@, plan@[k].1.view())),
            ),
        decreases sources@.len() - i,
    {
        let ghost plan_before = Seq::new(plan@.len(), |k: int| (plan@[k].0@, plan@[k].1.view()));
        proof {
            let next = sources@.subrange(0, i + 1);
            assert(next.drop_last() =~= sources@.subrange(0, i as int));
            assert(next.last() == sources@[i as int]);
        }
        match &sources[i] {
            ConfigSource::Remote { id, authentication: Some(SourceAuthentication::Basic { username, credential_id: _, password }), .. } => {
                let derived = credential_id_for(program_id, id.as_str());
                let entered = match password {
                    Some(pw) => if pw.as_str().unicode_len() > 0 {
                        Some(pw.clone())
                    } else {
                        None
                    },
                    None => None,
                };
                let chosen = match entered {
                    Some(pw) => Some(pw),
                    None => credentials.password_for(derived.as_str(), username.as_str()),
                };
                let pw = match chosen {
                    Some(pw) => pw,
                    None => {
                        proof {
                            lemma_plan_failure_persists(previous, p, sources@, i as int + 1);
                        }
                        return Err(CredentialError::Missing);
                    },
                };
                let record = CredentialRecord {
                    program_id: program_id.to_string(),
                    source_id: id.clone(),
                    username: username.clone(),
                    password: pw,
                };
                plan.push((derived.clone(), record));
                derived_ids.push(Some(derived));
                assert(Seq::new(plan@.len(), |k: int| (plan@[k].0@, plan@[k].1.view())) =~= plan_before.push(
                    (plan@[plan@.len() - 1].0@, plan@[plan@.len() - 1].1.view()),
                ));
            },
            _ => {
                derived_ids.push(None);
            },
        }
        i = i + 1;
    }
    assert(sources@.subrange(0, i as int) =~= sources@);
    let ghost planned = Seq::new(plan@.len(), |k: int| (plan@[k].0@, plan@[k].1.view()));
    // Store them.
    credentials.remove_program_records(program_id);
    let ghost base = credentials.records();
    let count = plan.len();
    let mut rest = plan;
    let mut done: usize = 0;
    assert(planned.subrange(0, 0) =~= Seq::<(Seq<char>, RecordView)>::empty());
    while rest.len() > 0
        invariant
            done + rest@.len() == planned.len(),
            planned.len() == count,
            forall|k: int| 0 <= k < rest@.len() ==> (#[trigger] rest@[k].0@, rest@[k].1.view()) == planned[done + k],
            credentials.well_formed(),
            credentials.records() == stored_in_order(base, planned.subrange(0, done as int)),
        decreases rest.len(),
    {
        let (id, record) = rest.remove(0);
        assert((id@, record.view()) == planned[done as int]);
        credentials.insert(id, record);
        proof {
            let next = planned.subrange(0, done + 1);
            assert(next.drop_last() =~= planned.subrange(0, done as int));
        }
        done = done + 1;
    }
    assert(planned.subrange(0, done as int) =~= planned);
    // Let each authenticating source name its credential instead of holding the password.
    let ghost before = sources@;
    let mut taken: Vec<ConfigSource> = Vec::new();
    std::mem::swap(&mut taken, sources);
    let total = taken.len();
    let mut rest = taken;
    let mut ids = derived_ids;
    let mut k: usize = 0;
    while rest.len() > 0
        invariant
            k + rest@.len() == before.len(),
            before.len() == total,
            ids@.len() == rest@.len(),
            forall|j: int| 0 <= j < rest@.len() ==> #[trigger] rest@[j] == before[k + j],
            forall|j: int| 0 <= j < rest@.len() ==> match basic_auth(#[trigger] rest@[j]) {
                Some((id, _, _, _)) => ids@[j] matches Some(d) && d@ == credential_id(encode_utf8(p), encode_utf8(id)),
                None => true,
            },
            sources@.len() == k,
            forall|j: int| 0 <= j < k ==> source_reconciled(before[j], #[trigger] sources@[j], p),
        decreases rest.len(),
    {
        let source = rest.remove(0);
        let derived = ids.remove(0);
        assert(source == before[k as int]);
        let after = reconciled_source(source, derived, Ghost(p));
        sources.push(after);
        k = k + 1;
    }
    Ok(())
}

proof fn lemma_plan_failure_persists(previous: Map<Seq<char>, RecordView>, p: Seq<char>, sources: Seq<ConfigSource>, n: int)
    requires
        0 <= n <= sources.len(),
        planned_credentials(previous, p, sources.subrange(0, n)) is None,
    ensures
        planned_credentials(previous, p, sources) is None,
    decreases sources.len() - n,
{
    if n < sources.len() {
        let next = sources.subrange(0, n + 1);
        assert(next.drop_last() =~= sources.subrange(0, n));
        lemma_plan_failure_persists(previous, p, sources, n + 1);
    } else {
        assert(sources.subrange(0, n) =~= sources);
    }
}

/// The sources that authenticate, each as (source, user name, credential identifier it names).
pub open spec fn bound_sources(sources: Seq<ConfigSource>) -> Seq<(Seq<char>, Seq<char>, Option<Seq<char>>)>
    decreases sources.len(),
{
    if sources.len() == 0 {
        Seq::empty()
    } else {
        bound_sources(sources.drop_last()) + match basic_auth(sources.last()) {
            Some((id, username, credential, _)) => seq![(id, username, credential)],
            None => Seq::empty(),
        }
    }
}

/// Whether every authenticating source names its credential, and no source authenticates twice.
pub open spec fn bindings_consistent(sources: Seq<ConfigSource>) -> bool {
    let bound = bound_sources(sources);
    &&& forall|i: int| 0 <= i < bound.len() ==> (#[trigger] bound[i]).2 is Some
    &&& forall|i: int, j: int| 0 <= i < j < bound.len() ==> (#[trigger] bound[i]).0 != (#[trigger] bound[j]).0
}

/// The bindings of a program's sources to their credentials, as (source, user name, credential).
pub open spec fn binding_set(sources: Seq<ConfigSource>) -> Set<(Seq<char>, Seq<char>, Seq<char>)> {
    Set::new(
        |t: (Seq<char>, Seq<char>, Seq<char>)|
            exists|i: int|
                0 <= i < bound_sources(sources).len() && #[trigger] bound_sources(sources)[i] == (t.0, t.1, Some(t.2)),
    )
}

pub open spec fn binding_sources(bindings: Seq<(String, String, String)>) -> Seq<Seq<char>> {
    Seq::new(bindings.len(), |i: int| bindings[i].0@)
}

pub open spec fn bound_source_ids(sources: Seq<ConfigSource>) -> Set<Seq<char>> {
    Set::new(
        |s: Seq<char>|
            exists|k: int| 0 <= k < bound_sources(sources).len() && #[trigger] bound_sources(sources)[k].0 == s,
    )
}

/// Adds a binding to a list sorted by source, unless its source is bound already.
fn insert_binding(bindings: &mut Vec<(String, String, String)>, binding: (String, String, String)) -> (added: bool)
    requires
        strictly_sorted(binding_sources(old(bindings)@)),
    ensures
        added == !binding_sources(old(bindings)@).contains(binding.0@),
        !added ==> final(bindings)@ == old(bindings)@,
        strictly_sorted(binding_sources(final(bindings)@)),
        added ==> binding_views(final(bindings)@).to_set() == binding_views(old(bindings)@).to_set().insert(
            (binding.0@, binding.1@, binding.2@),
        ),
        added ==> binding_sources(final(bindings)@).to_set() == binding_sources(old(bindings)@).to_set().insert(
            binding.0@,
        ),
{
    let ghost e = binding.0@;
    let ghost bt = binding_sources(bindings@);
    let ghost bv = binding_views(bindings@);
    let mut p: usize = 0;
    while p < bindings.len() && crate::xray_users::is_less(bindings[p].0.as_str(), binding.0.as_str())
        invariant
            p <= bindings@.len(),
            bt == binding_sources(bindings@),
            e == binding.0@,
            forall|k: int| 0 <= k < p ==> text_less(#[trigger] bt[k], e),
        decreases bindings@.len() - p,
    {
        assert(bt[p as int] == bindings@[p as int].0@);
        p = p + 1;
    }
    if p < bindings.len() && text_eq(bindings[p].0.as_str(), binding.0.as_str()) {
        assert(bt[p as int] == e);
        return false;
    }
    proof {
        if p < bindings@.len() {
            assert(bt[p as int] == bindings@[p as int].0@);
            lemma_text_less_total(bt[p as int], e);
            assert(text_less(e, bt[p as int]));
        }
        assert(!bt.contains(e)) by {
            if bt.contains(e) {
                let k = choose|k: int| 0 <= k < bt.len() && bt[k] == e;
                if k < p {
                    lemma_text_less_irreflexive(e);
                } else if k > p {
                    lemma_text_less_transitive(e, bt[p as int], bt[k]);
                    lemma_text_less_irreflexive(e);
                } else {
                    lemma_text_less_irreflexive(e);
                }
            }
        }
    }
    let ghost view = (binding.0@, binding.1@, binding.2@);
    bindings.insert(p, binding);
    proof {
        let r = binding_sources(bindings@);
        assert(r =~= bt.insert(p as int, e));
        assert(binding_views(bindings@) =~= bv.insert(p as int, view));
        assert forall|a: int, b: int| 0 <= a < b < r.len() implies text_less(#[trigger] r[a], #[trigger] r[b]) by {
            if b < p {
                assert(r[a] == bt[a] && r[b] == bt[b]);
            } else if a < p && b == p {
            } else if a < p && b > p {
                assert(r[a] == bt[a] && r[b] == bt[b - 1]);
            } else if a == p {
                assert(r[b] == bt[b - 1]);
                if b - 1 > p {
                    lemma_text_less_transitive(e, bt[p as int], bt[b - 1]);
                }
            } else {
                assert(r[a] == bt[a - 1] && r[b] == bt[b - 1]);
            }
        }
        lemma_insert_to_set(bt, p as int, e);
        lemma_insert_to_set(bv, p as int, view);
    }
    true
}

proof fn lemma_insert_to_set<A>(s: Seq<A>, p: int, x: A)
    requires
        0 <= p <= s.len(),
    ensures
        s.insert(p, x).to_set() == s.to_set().insert(x),
{
    let r = s.insert(p, x);
    assert forall|y: A| r.to_set().contains(y) == s.to_set().insert(x).contains(y) by {
        if r.contains(y) {
            let k = choose|k: int| 0 <= k < r.len() && r[k] == y;
            if k < p {
                assert(s[k] == y);
            } else if k > p {
                assert(s[k - 1] == y);
            }
        }
        if s.contains(y) {
            let k = choose|k: int| 0 <= k < s.len() && s[k] == y;
            if k < p {
                assert(r[k] == y);
            } else {
                assert(r[k + 1] == y);
            }
        }
        if y == x {
            assert(r[p] == y);
        }
    }
    assert(r.to_set() =~= s.to_set().insert(x));
}

/// The bindings of a program's sources to their credentials, sorted by source: refused as
/// corrupt when an authenticating source names no credential, or when a source authenticates
/// twice.
pub fn credential_bindings(sources: &Vec<ConfigSource>) -> (bindings: Result<Vec<(String, String, String)>, CredentialError>)
    ensures
        match bindings {
            Ok(b) => bindings_consistent(sources@) && strictly_sorted(binding_sources(b@)) && binding_views(b@).to_set()
                == binding_set(sources@),
            Err(e) => e == CredentialError::Corrupt && !bindings_consistent(sources@),
        },
{
    let mut bindings: Vec<(String, String, String)> = Vec::new();
    let mut i: usize = 0;
    proof {
        assert(sources@.subrange(0, 0) =~= Seq::<ConfigSource>::empty());
        assert(binding_views(bindings@).to_set() =~= binding_set(sources@.subrange(0, 0)));
        assert(binding_sources(bindings@).to_set() =~= bound_source_ids(sources@.subrange(0, 0)));
    }
    while i < sources.len()
        invariant
            i <= sources@.len(),
            bindings_consistent(sources@.subrange(0, i as int)),
            strictly_sorted(binding_sources(bindings@)),
            binding_views(bindings@).to_set() == binding_set(sources@.subrange(0, i as int)),
            binding_sources(bindings@).to_set() == bound_source_ids(sources@.subrange(0, i as int)),
        decreases sources@.len() - i,
    {
        let ghost prefix = sources@.subrange(0, i as int);
        let ghost next = sources@.subrange(0, i + 1);
        let ghost bs = bound_sources(prefix);
        proof {
            assert(next.drop_last() =~= prefix);
            assert(next.last() == sources@[i as int]);
        }
        match &sources[i] {
            ConfigSource::Remote { id, authentication: Some(SourceAuthentication::Basic { username, credential_id, password: _ }), .. } => {
                let ghost entry = (id@, username@, text_option(*credential_id));
                let ghost nb = bound_sources(next);
                assert(nb =~= bs.push(entry));
                let credential = match credential_id {
                    Some(c) => c,
                    None => {
                        proof {
                            assert(nb[bs.len() as int] == entry);
                            assert(!bindings_consistent(next));
                            lemma_inconsistency_persists(sources@, i as int + 1);
                        }
                        return Err(CredentialError::Corrupt);
                    },
                };
                let ghost sources_before = binding_sources(bindings@).to_set();
                let ghost views_before = binding_views(bindings@).to_set();
                if !insert_binding(&mut bindings, (id.clone(), username.clone(), credential.clone())) {
                    proof {
                        assert(binding_sources(bindings@).contains(id@));
                        assert(sources_before.contains(id@));
                        let k = choose|k: int| 0 <= k < bs.len() && #[trigger] bs[k].0 == id@;
                        assert(nb[k] == bs[k]);
                        assert(nb[bs.len() as int] == entry);
                        assert(!bindings_consistent(next));
                        lemma_inconsistency_persists(sources@, i as int + 1);
                    }
                    return Err(CredentialError::Corrupt);
                }
                proof {
                    assert(!sources_before.contains(id@));
                    assert forall|a: int| 0 <= a < nb.len() implies (#[trigger] nb[a]).2 is Some by {
                        if a < bs.len() {
                            assert(nb[a] == bs[a]);
                        }
                    }
                    assert forall|a: int, b: int| 0 <= a < b < nb.len() implies (#[trigger] nb[a]).0 != (#[trigger] nb[b]).0 by {
                        if b < bs.len() {
                            assert(nb[a] == bs[a] && nb[b] == bs[b]);
                        } else {
                            assert(nb[a] == bs[a]);
                            assert(nb[b] == entry);
                            if bs[a].0 == id@ {
                                assert(bound_source_ids(prefix).contains(id@));
                            }
                        }
                    }
                    assert(binding_set(next) =~= binding_set(prefix).insert((id@, username@, credential@))) by {
                        assert forall|t: (Seq<char>, Seq<char>, Seq<char>)| binding_set(next).contains(t) == binding_set(prefix).insert(
                            (id@, username@, credential@),
                        ).contains(t) by {
                            if binding_set(next).contains(t) {
                                let k = choose|k: int| 0 <= k < nb.len() && #[trigger] nb[k] == (t.0, t.1, Some(t.2));
                                if k < bs.len() {
                                    assert(bs[k] == nb[k]);
                                }
                            }
                            if binding_set(prefix).contains(t) {
                                let k = choose|k: int| 0 <= k < bs.len() && #[trigger] bs[k] == (t.0, t.1, Some(t.2));
                                assert(nb[k] == bs[k]);
                            }
                            if t == (id@, username@, credential@) {
                                assert(nb[bs.len() as int] == entry);
                            }
                        }
                    }
                    assert(bound_source_ids(next) =~= bound_source_ids(prefix).insert(id@)) by {
                        assert forall|x: Seq<char>| bound_source_ids(next).contains(x) == bound_source_ids(prefix).insert(id@).contains(x) by {
                            if bound_source_ids(next).contains(x) {
                                let k = choose|k: int| 0 <= k < nb.len() && #[trigger] nb[k].0 == x;
                                if k < bs.len() {
                                    assert(bs[k] == nb[k]);
                                }
                            }
                            if bound_source_ids(prefix).contains(x) {
                                let k = choose|k: int| 0 <= k < bs.len() && #[trigger] bs[k].0 == x;
                                assert(nb[k] == bs[k]);
                            }
                            if x == id@ {
                                assert(nb[bs.len() as int].0 == x);
                            }
                        }
                    }
                }
            },
            _ => {
                assert(bound_sources(next) =~= bs);
                assert(binding_set(next) =~= binding_set(prefix));
                assert(bound_source_ids(next) =~= bound_source_ids(prefix));
            },
        }
        i = i + 1;
    }
    assert(sources@.subrange(0, i as int) =~= sources@);
    Ok(bindings)
}

proof fn lemma_inconsistency_persists(sources: Seq<ConfigSource>, n: int)
    requires
        0 <= n <= sources.len(),
        !bindings_consistent(sources.subrange(0, n)),
    ensures
        !bindings_consistent(sources),
    decreases sources.len() - n,
{
    if n < sources.len() {
        let prefix = sources.subrange(0, n);
        let next = sources.subrange(0, n + 1);
        assert(next.drop_last() =~= prefix);
        let bp = bound_sources(prefix);
        let bn = bound_sources(next);
        assert(bn.subrange(0, bp.len() as int) =~= bp);
        if exists|i: int| 0 <= i < bp.len() && !((#[trigger] bp[i]).2 is Some) {
            let i = choose|i: int| 0 <= i < bp.len() && !((#[trigger] bp[i]).2 is Some);
            assert(bn[i] == bp[i]);
        } else {
            let (i, j) = choose|i: int, j: int| 0 <= i < j < bp.len() && (#[trigger] bp[i]).0 == (#[trigger] bp[j]).0;
            assert(bn[i] == bp[i] && bn[j] == bp[j]);
        }
        lemma_inconsistency_persists(sources, n + 1);
    } else {
        assert(sources.subrange(0, n) =~= sources);
    }
}

/// What `serde_json::to_vec` makes of a program id and its bindings, keyed by source
/// (`(program_id, {source: [user, credential]})`); nothing when it fails.
pub uninterp spec fn binding_json(program_id: Seq<char>, bindings: Seq<(Seq<char>, Seq<char>, Seq<char>)>) -> Option<Seq<u8>>;

/// Serialises a program id with its bindings, keyed by source, with `serde_json::to_vec`. The
/// contract claims only that the bytes are the named value [`binding_json`] of the id and the
/// bindings: the JSON encoding is left to `serde_json`. The bindings come sorted by source, each
/// source once, so the map the body builds holds each of them, in their order.
#[verifier::external_body]
fn binding_json_bytes(program_id: &str, bindings: &Vec<(String, String, String)>) -> (bytes: Option<Vec<u8>>)
    requires
        strictly_sorted(binding_keys(binding_views(bindings@))),
    ensures
        match bytes {
            Some(b) => binding_json(program_id@, binding_views(bindings@)) == Some(b@),
            None => binding_json(program_id@, binding_views(bindings@)) is None,
        },
{
    let map: std::collections::BTreeMap<&str, (&str, &str)> =
        bindings.iter().map(|(s, u, c)| (s.as_str(), (u.as_str(), c.as_str()))).collect();
    serde_json::to_vec(&(program_id, map)).ok()
}

/// A digest as a credential update records it: `sha256:` and the SHA-256 digest in hexadecimal.
pub open spec fn recorded_digest(json: Seq<u8>) -> Seq<char> {
    "sha256:"@ + hex_of(sha256_of(json))
}

pub type BindingView = (Seq<char>, Seq<char>, Seq<char>);

pub open spec fn binding_keys(b: Seq<BindingView>) -> Seq<Seq<char>> {
    Seq::new(b.len(), |i: int| b[i].0)
}

/// The bindings of the sources as one list sorted by source (there is one such list when the
/// bindings are consistent).
pub open spec fn sorted_bindings(sources: Seq<ConfigSource>) -> Seq<BindingView> {
    choose|b: Seq<BindingView>| strictly_sorted(binding_keys(b)) && b.to_set() == binding_set(sources)
}

/// The digest of a program's bindings to its credentials, when they serialise.
pub open spec fn bindings_digest(program_id: Seq<char>, sources: Seq<ConfigSource>) -> Option<Seq<char>> {
    match binding_json(program_id, sorted_bindings(sources)) {
        Some(json) => Some(recorded_digest(json)),
        None => None,
    }
}

/// Two lists sorted by source with the same bindings are the same list.
proof fn lemma_sorted_bindings_unique(a: Seq<BindingView>, b: Seq<BindingView>)
    requires
        strictly_sorted(binding_keys(a)),
        strictly_sorted(binding_keys(b)),
        a.to_set() == b.to_set(),
    ensures
        a == b,
    decreases a.len(),
{
    if a.len() == 0 {
        if b.len() > 0 {
            assert(b.to_set().contains(b[0]));
        }
        assert(a =~= b);
    } else {
        assert(a.to_set().contains(a[0]));
        assert(b.len() > 0);
        assert(b.to_set().contains(b[0]));
        let j = choose|j: int| 0 <= j < b.len() && b[j] == a[0];
        let k = choose|k: int| 0 <= k < a.len() && a[k] == b[0];
        if j > 0 {
            assert(text_less(binding_keys(b)[0], binding_keys(b)[j]));
            if k > 0 {
                assert(text_less(binding_keys(a)[0], binding_keys(a)[k]));
                lemma_text_less_transitive(binding_keys(b)[0], binding_keys(b)[j], binding_keys(a)[k]);
            }
            lemma_text_less_irreflexive(binding_keys(b)[0]);
        }
        assert(a[0] == b[0]);
        let ra = a.drop_first();
        let rb = b.drop_first();
        assert(strictly_sorted(binding_keys(ra))) by {
            assert forall|x: int, y: int| 0 <= x < y < binding_keys(ra).len() implies text_less(
                #[trigger] binding_keys(ra)[x],
                #[trigger] binding_keys(ra)[y],
            ) by {
                assert(binding_keys(ra)[x] == binding_keys(a)[x + 1]);
                assert(binding_keys(ra)[y] == binding_keys(a)[y + 1]);
            }
        }
        assert(strictly_sorted(binding_keys(rb))) by {
            assert forall|x: int, y: int| 0 <= x < y < binding_keys(rb).len() implies text_less(
                #[trigger] binding_keys(rb)[x],
                #[trigger] binding_keys(rb)[y],
            ) by {
                assert(binding_keys(rb)[x] == binding_keys(b)[x + 1]);
                assert(binding_keys(rb)[y] == binding_keys(b)[y + 1]);
            }
        }
        assert(ra.to_set() =~= rb.to_set()) by {
            assert forall|t: BindingView| ra.to_set().contains(t) == rb.to_set().contains(t) by {
                if ra.contains(t) {
                    let x = choose|x: int| 0 <= x < ra.len() && ra[x] == t;
                    assert(a[x + 1] == t);
                    assert(text_less(binding_keys(a)[0], binding_keys(a)[x + 1]));
                    assert(t != a[0]) by {
                        if t == a[0] {
                            lemma_text_less_irreflexive(a[0].0);
                        }
                    }
                    assert(b.to_set().contains(t));
                    let y = choose|y: int| 0 <= y < b.len() && b[y] == t;
                    assert(y != 0);
                    assert(rb[y - 1] == t);
                }
                if rb.contains(t) {
                    let y = choose|y: int| 0 <= y < rb.len() && rb[y] == t;
                    assert(b[y + 1] == t);
                    assert(text_less(binding_keys(b)[0], binding_keys(b)[y + 1]));
                    assert(t != b[0]) by {
                        if t == b[0] {
                            lemma_text_less_irreflexive(b[0].0);
                        }
                    }
                    assert(a.to_set().contains(t));
                    let x = choose|x: int| 0 <= x < a.len() && a[x] == t;
                    assert(x != 0);
                    assert(ra[x - 1] == t);
                }
            }
        }
        lemma_sorted_bindings_unique(ra, rb);
        assert(a =~= seq![a[0]] + ra);
        assert(b =~= seq![b[0]] + rb);
    }
}

/// The digest of a program's bindings to its credentials: refused as corrupt when the bindings
/// are inconsistent or cannot be serialised.
pub fn credential_binding_digest(program_id: &str, sources: &Vec<ConfigSource>) -> (digest: Result<String, CredentialError>)
    ensures
        match digest {
            Ok(d) => bindings_consistent(sources@) && bindings_digest(program_id@, sources@) == Some(d@),
            Err(e) => e == CredentialError::Corrupt && !(bindings_consistent(sources@) && bindings_digest(
                program_id@,
                sources@,
            ) is Some),
        },
{
    let bindings = match credential_bindings(sources) {
        Ok(b) => b,
        Err(e) => {
            return Err(e);
        },
    };
    let ghost b = binding_views(bindings@);
    proof {
        assert(binding_keys(b) =~= binding_sources(bindings@));
        let c = sorted_bindings(sources@);
        assert(strictly_sorted(binding_keys(c)) && c.to_set() == binding_set(sources@));
        lemma_sorted_bindings_unique(b, c);
    }
    let json = match binding_json_bytes(program_id, &bindings) {
        Some(json) => json,
        None => {
            return Err(CredentialError::Corrupt);
        },
    };
    let digest = sha256(json.as_slice());
    let mut text = "sha256:".to_string();
    proof {
        reveal_strlit("sha256:");
    }
    push_hex(&mut text, digest.as_slice());
    Ok(text)
}

/// Whether the stored credentials of a program are exactly those its sources are bound to.
pub fn credentials_match_sources(credentials: &CredentialSet, program_id: &str, sources: &Vec<ConfigSource>) -> (matches: bool)
    requires
        credentials.well_formed(),
    ensures
        matches == (bindings_consistent(sources@) && program_triples(credentials.records(), program_id@)
            == binding_set(sources@)),
{
    match credential_bindings(sources) {
        Ok(bindings) => credentials.matches_bindings(program_id, &bindings),
        Err(_) => false,
    }
}

/// Whether some remote source of a program authenticates, so that it has credentials.
pub fn has_credentials(sources: &Vec<ConfigSource>) -> (has: bool)
    ensures
        has == exists|i: int| 0 <= i < sources@.len() && #[trigger] basic_auth(sources@[i]) is Some,
{
    let mut i: usize = 0;
    while i < sources.len()
        invariant
            i <= sources@.len(),
            forall|j: int| 0 <= j < i ==> #[trigger] basic_auth(sources@[j]) is None,
        decreases sources@.len() - i,
    {
        if let ConfigSource::Remote { authentication: Some(SourceAuthentication::Basic { .. }), .. } = &sources[i] {
            assert(basic_auth(sources@[i as int]) is Some);
            return true;
        }
        i = i + 1;
    }
    false
}

/// The version of the record of an interrupted credential update.
pub const CREDENTIAL_JOURNAL_SCHEMA_VERSION: u32 = 1;

/// How an interrupted credential update is finished.
#[derive(PartialEq, Eq, Structural, Clone, Copy, Debug)]
pub enum JournalRecovery {
    /// The program change it belonged to was committed: the new credentials stay; when the program
    /// still exists they must match its sources.
    KeepCommitted { verify_program: bool },
    /// The program change was not committed: the previous credentials are put back.
    RestorePrevious,
}

/// How an interrupted credential update is finished, from the digest it recorded for the
/// program change (none when the program was being removed) and the program as it now is, by id
/// and sources (none when it does not exist): the change was committed when the digests agree,
/// or when a removal left no program. Refused when the record has another version, or when the
/// program's bindings are corrupt.
pub open spec fn journal_recovery_of(
    schema_version: u32,
    target_digest: Option<Seq<char>>,
    current: Option<(Seq<char>, Seq<ConfigSource>)>,
) -> Result<JournalRecovery, CredentialError> {
    if schema_version != CREDENTIAL_JOURNAL_SCHEMA_VERSION {
        Err(CredentialError::CorruptJournal)
    } else {
        match (target_digest, current) {
            (None, None) => Ok(JournalRecovery::KeepCommitted { verify_program: false }),
            (Some(expected), Some((id, sources))) => if bindings_consistent(sources) && bindings_digest(id, sources) is Some {
                if bindings_digest(id, sources) == Some(expected) {
                    Ok(JournalRecovery::KeepCommitted { verify_program: true })
                } else {
                    Ok(JournalRecovery::RestorePrevious)
                }
            } else {
                Err(CredentialError::Corrupt)
            },
            _ => Ok(JournalRecovery::RestorePrevious),
        }
    }
}

/// A program as recovery reads it, by its views.
pub open spec fn current_program_view(current: Option<(&str, &Vec<ConfigSource>)>) -> Option<(Seq<char>, Seq<ConfigSource>)> {
    match current {
        Some((id, sources)) => Some((id@, sources@)),
        None => None,
    }
}

/// Decides how an interrupted credential update is finished (see [`journal_recovery_of`]).
pub fn plan_journal_recovery(
    schema_version: u32,
    target_digest: &Option<String>,
    current: Option<(&str, &Vec<ConfigSource>)>,
) -> (plan: Result<JournalRecovery, CredentialError>)
    ensures
        plan == journal_recovery_of(schema_version, text_option(*target_digest), current_program_view(current)),
{
    if schema_version != CREDENTIAL_JOURNAL_SCHEMA_VERSION {
        return Err(CredentialError::CorruptJournal);
    }
    match (target_digest, current) {
        (None, None) => Ok(JournalRecovery::KeepCommitted { verify_program: false }),
        (Some(expected), Some((id, sources))) => {
            let digest = match credential_binding_digest(id, sources) {
                Ok(d) => d,
                Err(e) => {
                    return Err(e);
                },
            };
            if text_eq(digest.as_str(), expected.as_str()) {
                Ok(JournalRecovery::KeepCommitted { verify_program: true })
            } else {
                Ok(JournalRecovery::RestorePrevious)
            }
        },
        _ => Ok(JournalRecovery::RestorePrevious),
    }
}

/// Recovering an interrupted update of a program's credentials, whose record holds the digest
/// of the bindings it was changing to: when the program change was not committed, so that the
/// program still has the bindings it had before, the previous credentials are put back; when it
/// was committed, the new ones stay and are checked against the program; when a first creation
/// was not committed, so that no program exists, the previous credentials are put back; and a
/// removal that left no program stays as it is. This holds where the bindings before and after the change differ in digest.
pub proof fn lemma_recovery_follows_commit(
    program_id: Seq<char>,
    before: Seq<ConfigSource>,
    after: Seq<ConfigSource>,
)
    requires
        bindings_consistent(before),
        bindings_consistent(after),
        bindings_digest(program_id, before) is Some,
        bindings_digest(program_id, after) is Some,
        bindings_digest(program_id, before) != bindings_digest(program_id, after),
    ensures
        journal_recovery_of(
            CREDENTIAL_JOURNAL_SCHEMA_VERSION,
            bindings_digest(program_id, after),
            Some((program_id, before)),
        ) == Ok::<JournalRecovery, CredentialError>(JournalRecovery::RestorePrevious),
        journal_recovery_of(
            CREDENTIAL_JOURNAL_SCHEMA_VERSION,
            bindings_digest(program_id, after),
            Some((program_id, after)),
        ) == Ok::<JournalRecovery, CredentialError>(JournalRecovery::KeepCommitted { verify_program: true }),
        journal_recovery_of(CREDENTIAL_JOURNAL_SCHEMA_VERSION, bindings_digest(program_id, after), None)
            == Ok::<JournalRecovery, CredentialError>(JournalRecovery::RestorePrevious),
        journal_recovery_of(CREDENTIAL_JOURNAL_SCHEMA_VERSION, None, None) == Ok::<
            JournalRecovery,
            CredentialError,
        >(JournalRecovery::KeepCommitted { verify_program: false }),
{
}

} // verus!
