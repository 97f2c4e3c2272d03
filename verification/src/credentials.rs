use vstd::prelude::*;
use vstd::utf8::encode_utf8;

use crate::digest::{hex_of, push_hex, sha256, sha256_of};
use crate::license_policy::{AppError, ErrorCode};
use crate::text::text_eq;

verus! {

/// A remote configuration source's Basic authentication credential, bound to its program
/// and source.
#[derive(Clone)]
pub struct CredentialRecord {
    pub program_id: String,
    pub source_id: String,
    pub username: String,
    pub password: String,
}

/// A credential stored under its identifier.
#[derive(Clone)]
pub struct CredentialEntry {
    pub id: String,
    pub record: CredentialRecord,
}

/// The mathematical value of a credential.
pub struct RecordView {
    pub program_id: Seq<char>,
    pub source_id: Seq<char>,
    pub username: Seq<char>,
    pub password: Seq<char>,
}

impl CredentialRecord {
    pub open spec fn view(&self) -> RecordView {
        RecordView {
            program_id: self.program_id@,
            source_id: self.source_id@,
            username: self.username@,
            password: self.password@,
        }
    }
}

/// The credentials, without those of program `p`.
pub open spec fn without_program(records: Map<Seq<char>, RecordView>, p: Seq<char>) -> Map<Seq<char>, RecordView> {
    records.restrict(Set::new(|id: Seq<char>| records[id].program_id != p))
}

/// The credentials of program `p`, each as (source, user name, credential identifier).
pub open spec fn program_triples(records: Map<Seq<char>, RecordView>, p: Seq<char>) -> Set<(Seq<char>, Seq<char>, Seq<char>)> {
    Set::new(
        |t: (Seq<char>, Seq<char>, Seq<char>)|
            records.contains_key(t.2) && records[t.2].program_id == p && records[t.2].source_id == t.0
                && records[t.2].username == t.1,
    )
}

pub open spec fn binding_views(bindings: Seq<(String, String, String)>) -> Seq<(Seq<char>, Seq<char>, Seq<char>)> {
    Seq::new(bindings.len(), |i: int| (bindings[i].0@, bindings[i].1@, bindings[i].2@))
}

/// The credentials of every program, each under its own identifier.
#[derive(Clone)]
pub struct CredentialSet {
    entries: Vec<CredentialEntry>,
}

impl CredentialSet {
    /// No identifier occurs twice.
    pub closed spec fn well_formed(&self) -> bool {
        forall|i: int, j: int|
            0 <= i < j < self.entries@.len() ==> #[trigger] self.entries@[i].id@
                != #[trigger] self.entries@[j].id@
    }

    /// The credentials by identifier.
    pub closed spec fn records(&self) -> Map<Seq<char>, RecordView> {
        Map::new(
            |id: Seq<char>| exists|i: int| 0 <= i < self.entries@.len() && self.entries@[i].id@ == id,
            |id: Seq<char>|
                self.entries@[choose|i: int|
                    0 <= i < self.entries@.len() && self.entries@[i].id@ == id].record.view(),
        )
    }

    /// No credentials.
    pub fn new() -> (set: Self)
        ensures
            set.well_formed(),
            set.records() == Map::<Seq<char>, RecordView>::empty(),
    {
        let set = CredentialSet { entries: Vec::new() };
        assert(set.records() =~= Map::<Seq<char>, RecordView>::empty());
        set
    }

    /// The position of the credential named `id`.
    fn position(&self, id: &str) -> (found: Option<usize>)
        requires
            self.well_formed(),
        ensures
            match found {
                Some(i) => i < self.entries@.len() && self.entries@[i as int].id@ == id@
                    && self.records().contains_key(id@) && self.records()[id@]
                    == self.entries@[i as int].record.view(),
                None => !self.records().contains_key(id@),
            },
    {
        let mut i: usize = 0;
        while i < self.entries.len()
            invariant
                self.well_formed(),
                i <= self.entries@.len(),
                forall|j: int| 0 <= j < i ==> self.entries@[j].id@ != id@,
            decreases self.entries@.len() - i,
        {
            if text_eq(self.entries[i].id.as_str(), id) {
                proof {
                    assert(self.entries@[i as int].id@ == id@);
                    assert(exists|k: int| 0 <= k < self.entries@.len() && self.entries@[k].id@ == id@);
                    let c = choose|k: int| 0 <= k < self.entries@.len() && self.entries@[k].id@ == id@;
                    if c < i {
                        assert(self.entries@[c].id@ != self.entries@[i as int].id@);
                    } else if c > i {
                        assert(self.entries@[i as int].id@ != self.entries@[c].id@);
                    }
                    assert(self.records().contains_key(id@));
                }
                return Some(i);
            }
            i = i + 1;
        }
        None
    }

    /// The password stored for `id`, when the credential belongs to `username`.
    pub fn password_for(&self, id: &str, username: &str) -> (password: Option<String>)
        requires
            self.well_formed(),
        ensures
            match password {
                Some(p) => self.records().contains_key(id@) && self.records()[id@].username
                    == username@ && self.records()[id@].password == p@,
                None => !(self.records().contains_key(id@) && self.records()[id@].username
                    == username@),
            },
    {
        match self.position(id) {
            Some(i) => {
                if text_eq(self.entries[i].record.username.as_str(), username) {
                    Some(self.entries[i].record.password.clone())
                } else {
                    None
                }
            },
            None => None,
        }
    }

    /// Stores `record` under `id`, replacing what was stored there.
    pub fn insert(&mut self, id: String, record: CredentialRecord)
        requires
            old(self).well_formed(),
        ensures
            final(self).well_formed(),
            final(self).records() == old(self).records().insert(id@, record.view()),
    {
        let ghost before = self.records();
        let ghost key = id@;
        let ghost value = record.view();
        match self.position(id.as_str()) {
            Some(i) => {
                self.entries.set(i, CredentialEntry { id, record });
                proof {
                    assert forall|a: int, b: int|
                        0 <= a < b < self.entries@.len() implies #[trigger] self.entries@[a].id@
                        != #[trigger] self.entries@[b].id@ by {
                        assert(self.entries@[a].id@ == old(self).entries@[a].id@);
                        assert(self.entries@[b].id@ == old(self).entries@[b].id@);
                    }
                    assert forall|k: Seq<char>| #[trigger] self.records().contains_key(k)
                        == before.insert(key, value).contains_key(k) by {
                        if before.contains_key(k) {
                            let c = choose|x: int|
                                0 <= x < old(self).entries@.len() && old(self).entries@[x].id@ == k;
                            assert(self.entries@[c].id@ == k);
                        }
                        if self.records().contains_key(k) {
                            let c = choose|x: int|
                                0 <= x < self.entries@.len() && self.entries@[x].id@ == k;
                            assert(old(self).entries@[c].id@ == k);
                        }
                    }
                    assert forall|k: Seq<char>| #[trigger] self.records().contains_key(k) implies self.records()[k]
                        == before.insert(key, value)[k] by {
                        let c = choose|x: int|
                            0 <= x < self.entries@.len() && self.entries@[x].id@ == k;
                        if k != key {
                            assert(c != i);
                            assert(old(self).entries@[c].id@ == k);
                            let d = choose|x: int|
                                0 <= x < old(self).entries@.len() && old(self).entries@[x].id@ == k;
                            if d != c {
                                assert(old(self).entries@[d].id@ == old(self).entries@[c].id@);
                            }
                        } else {
                            if c != i {
                                assert(self.entries@[c].id@ == self.entries@[i as int].id@);
                            }
                        }
                    }
                    assert(self.records() =~= before.insert(key, value));
                }
            },
            None => {
                self.entries.push(CredentialEntry { id, record });
                proof {
                    let n = old(self).entries@.len() as int;
                    assert forall|a: int, b: int|
                        0 <= a < b < self.entries@.len() implies #[trigger] self.entries@[a].id@
                        != #[trigger] self.entries@[b].id@ by {
                        if b == n {
                            assert(old(self).entries@[a].id@ != key) by {
                                if old(self).entries@[a].id@ == key {
                                    assert(before.contains_key(key));
                                }
                            }
                        } else {
                            assert(self.entries@[a] == old(self).entries@[a]);
                            assert(self.entries@[b] == old(self).entries@[b]);
                        }
                    }
                    assert forall|k: Seq<char>| #[trigger] self.records().contains_key(k)
                        == before.insert(key, value).contains_key(k) by {
                        if before.contains_key(k) {
                            let c = choose|x: int|
                                0 <= x < old(self).entries@.len() && old(self).entries@[x].id@ == k;
                            assert(self.entries@[c].id@ == k);
                        }
                        if k == key {
                            assert(self.entries@[n].id@ == k);
                        }
                        if self.records().contains_key(k) && k != key {
                            let c = choose|x: int|
                                0 <= x < self.entries@.len() && self.entries@[x].id@ == k;
                            assert(old(self).entries@[c].id@ == k);
                        }
                    }
                    assert forall|k: Seq<char>| #[trigger] self.records().contains_key(k) implies self.records()[k]
                        == before.insert(key, value)[k] by {
                        let c = choose|x: int|
                            0 <= x < self.entries@.len() && self.entries@[x].id@ == k;
                        if k != key {
                            assert(c != n);
                            assert(old(self).entries@[c].id@ == k);
                            let d = choose|x: int|
                                0 <= x < old(self).entries@.len() && old(self).entries@[x].id@ == k;
                            if d != c {
                                assert(old(self).entries@[d].id@ == old(self).entries@[c].id@);
                            }
                        } else {
                            if c != n {
                                assert(self.entries@[c].id@ == self.entries@[n].id@);
                            }
                        }
                    }
                    assert(self.records() =~= before.insert(key, value));
                }
            },
        }
    }

    proof fn lemma_record_at(&self, j: int)
        requires
            self.well_formed(),
            0 <= j < self.entries@.len(),
        ensures
            self.records().contains_key(self.entries@[j].id@),
            self.records()[self.entries@[j].id@] == self.entries@[j].record.view(),
    {
        let id = self.entries@[j].id@;
        assert(exists|k: int| 0 <= k < self.entries@.len() && self.entries@[k].id@ == id);
        let c = choose|k: int| 0 <= k < self.entries@.len() && self.entries@[k].id@ == id;
        if c < j {
            assert(self.entries@[c].id@ != self.entries@[j].id@);
        } else if c > j {
            assert(self.entries@[j].id@ != self.entries@[c].id@);
        }
    }

    /// Drops every credential of program `program_id`.
    pub fn remove_program_records(&mut self, program_id: &str)
        requires
            old(self).well_formed(),
        ensures
            final(self).well_formed(),
            final(self).records() == without_program(old(self).records(), program_id@),
    {
        let ghost before = self.records();
        let ghost original = self.entries@;
        let mut kept = CredentialSet::new();
        let mut i: usize = 0;
        while i < self.entries.len()
            invariant
                i <= original.len(),
                self.entries@ == original,
                self.well_formed(),
                before == self.records(),
                kept.well_formed(),
                forall|id: Seq<char>| #[trigger] kept.records().contains_key(id) == (exists|j: int|
                    0 <= j < i && original[j].id@ == id && original[j].record.program_id@ != program_id@),
                forall|id: Seq<char>| #[trigger] kept.records().contains_key(id) ==> kept.records()[id] == before[id],
            decreases original.len() - i,
        {
            proof {
                self.lemma_record_at(i as int);
            }
            if !text_eq(self.entries[i].record.program_id.as_str(), program_id) {
                let record = CredentialRecord {
                    program_id: self.entries[i].record.program_id.clone(),
                    source_id: self.entries[i].record.source_id.clone(),
                    username: self.entries[i].record.username.clone(),
                    password: self.entries[i].record.password.clone(),
                };
                kept.insert(self.entries[i].id.clone(), record);
            }
            assert forall|id: Seq<char>| #[trigger] kept.records().contains_key(id) == (exists|j: int|
                0 <= j < i + 1 && original[j].id@ == id && original[j].record.program_id@ != program_id@) by {
                if exists|j: int| 0 <= j < i + 1 && original[j].id@ == id && original[j].record.program_id@ != program_id@ {
                    let j = choose|j: int| 0 <= j < i + 1 && original[j].id@ == id && original[j].record.program_id@ != program_id@;
                    if j < i {
                        assert(exists|j2: int| 0 <= j2 < i && original[j2].id@ == id && original[j2].record.program_id@ != program_id@);
                    }
                }
            }
            i = i + 1;
        }
        proof {
            assert forall|id: Seq<char>| #[trigger] kept.records().contains_key(id) == without_program(before, program_id@).contains_key(id) by {
                if before.contains_key(id) {
                    let c = choose|k: int| 0 <= k < original.len() && original[k].id@ == id;
                    self.lemma_record_at(c);
                }
                if kept.records().contains_key(id) {
                    let j = choose|j: int| 0 <= j < original.len() && original[j].id@ == id && original[j].record.program_id@ != program_id@;
                    self.lemma_record_at(j);
                }
            }
            assert(kept.records() =~= without_program(before, program_id@));
        }
        *self = kept;
    }

    /// Whether the credentials of program `program_id` are exactly those that the bindings name:
    /// each binding (source, user name, credential) has its credential, stored for the program,
    /// source and user, and every credential of the program is bound.
    pub fn matches_bindings(&self, program_id: &str, bindings: &Vec<(String, String, String)>) -> (matches: bool)
        requires
            self.well_formed(),
        ensures
            matches == (program_triples(self.records(), program_id@) == binding_views(bindings@).to_set()),
    {
        let ghost triples = program_triples(self.records(), program_id@);
        let ghost bound = binding_views(bindings@);
        // Every binding names a credential of the program.
        let mut k: usize = 0;
        while k < bindings.len()
            invariant
                k <= bindings@.len(),
                self.well_formed(),
                bound == binding_views(bindings@),
                triples == program_triples(self.records(), program_id@),
                forall|j: int| 0 <= j < k ==> triples.contains(#[trigger] bound[j]),
            decreases bindings@.len() - k,
        {
            let (source, user, id) = (&bindings[k].0, &bindings[k].1, &bindings[k].2);
            assert(bound[k as int] == (source@, user@, id@));
            let found = match self.position(id.as_str()) {
                Some(i) => text_eq(self.entries[i].record.program_id.as_str(), program_id)
                    && text_eq(self.entries[i].record.source_id.as_str(), source.as_str())
                    && text_eq(self.entries[i].record.username.as_str(), user.as_str()),
                None => false,
            };
            if !found {
                assert(!triples.contains(bound[k as int]));
                assert(bound.to_set().contains(bound[k as int]));
                return false;
            }
            k = k + 1;
        }
        // Every credential of the program is bound.
        let mut i: usize = 0;
        while i < self.entries.len()
            invariant
                i <= self.entries@.len(),
                self.well_formed(),
                bound == binding_views(bindings@),
                triples == program_triples(self.records(), program_id@),
                forall|j: int| 0 <= j < i && self.entries@[j].record.program_id@ == program_id@ ==> bound.contains(
                    (#[trigger] self.entries@[j].record.source_id@, self.entries@[j].record.username@, self.entries@[j].id@),
                ),
            decreases self.entries@.len() - i,
        {
            proof {
                self.lemma_record_at(i as int);
            }
            if text_eq(self.entries[i].record.program_id.as_str(), program_id) {
                let mut b: usize = 0;
                let mut bound_here = false;
                while b < bindings.len() && !bound_here
                    invariant
                        b <= bindings@.len(),
                        i < self.entries@.len(),
                        bound == binding_views(bindings@),
                        bound_here ==> bound.contains((self.entries@[i as int].record.source_id@, self.entries@[i as int].record.username@, self.entries@[i as int].id@)),
                        !bound_here ==> forall|j: int| 0 <= j < b ==> #[trigger] bound[j] != (self.entries@[i as int].record.source_id@, self.entries@[i as int].record.username@, self.entries@[i as int].id@),
                    decreases bindings@.len() - b + if bound_here { 0int } else { 1int },
                {
                    assert(bound[b as int] == (bindings@[b as int].0@, bindings@[b as int].1@, bindings@[b as int].2@));
                    if text_eq(bindings[b].0.as_str(), self.entries[i].record.source_id.as_str())
                        && text_eq(bindings[b].1.as_str(), self.entries[i].record.username.as_str())
                        && text_eq(bindings[b].2.as_str(), self.entries[i].id.as_str()) {
                        bound_here = true;
                    } else {
                        b = b + 1;
                    }
                }
                if !bound_here {
                    let ghost t = (self.entries@[i as int].record.source_id@, self.entries@[i as int].record.username@, self.entries@[i as int].id@);
                    assert(triples.contains(t));
                    assert(!bound.to_set().contains(t)) by {
                        if bound.contains(t) {
                            let j = choose|j: int| 0 <= j < bound.len() && bound[j] == t;
                        }
                    }
                    return false;
                }
            }
            i = i + 1;
        }
        proof {
            assert forall|t: (Seq<char>, Seq<char>, Seq<char>)| triples.contains(t) == bound.to_set().contains(t) by {
                if triples.contains(t) {
                    let c = choose|x: int| 0 <= x < self.entries@.len() && self.entries@[x].id@ == t.2;
                    self.lemma_record_at(c);
                    assert(bound.contains((self.entries@[c].record.source_id@, self.entries@[c].record.username@, self.entries@[c].id@)));
                }
                if bound.contains(t) {
                    let j = choose|j: int| 0 <= j < bound.len() && bound[j] == t;
                    assert(triples.contains(bound[j]));
                }
            }
            assert(triples =~= bound.to_set());
        }
        true
    }
}

/// The credentials a program's sources may read, shared between readers.
#[derive(Clone)]
pub struct CredentialSnapshot {
    set: CredentialSet,
}

/// Why a credential could not be had.
pub const MISSING_CREDENTIALS: &'static str = "The remote configuration credential is unavailable";

impl CredentialSnapshot {
    /// The credentials of the snapshot.
    pub closed spec fn records(&self) -> Map<Seq<char>, RecordView> {
        self.set.records()
    }

    pub closed spec fn well_formed(&self) -> bool {
        self.set.well_formed()
    }

    /// A snapshot of a set of credentials.
    pub fn of(set: CredentialSet) -> (snapshot: Self)
        requires
            set.well_formed(),
        ensures
            snapshot.well_formed(),
            snapshot.records() == set.records(),
    {
        CredentialSnapshot { set }
    }

    /// A snapshot without credentials.
    pub fn empty() -> (snapshot: Self)
        ensures
            snapshot.well_formed(),
            snapshot.records() == Map::<Seq<char>, RecordView>::empty(),
    {
        CredentialSnapshot { set: CredentialSet::new() }
    }

    /// The password of the credential a source names, when it belongs to the source's user;
    /// a storage error otherwise.
    pub fn basic_password(&self, credential_id: Option<&str>, username: &str) -> (password: Result<
        String,
        AppError,
    >)
        requires
            self.well_formed(),
        ensures
            match password {
                Ok(p) => credential_id matches Some(id) && self.records().contains_key(id@)
                    && self.records()[id@].username == username@ && self.records()[id@].password
                    == p@,
                Err(e) => e.code == ErrorCode::Storage && e.message@ == MISSING_CREDENTIALS@
                    && !(credential_id matches Some(id) && self.records().contains_key(id@)
                    && self.records()[id@].username == username@),
            },
    {
        let id = match credential_id {
            Some(id) => id,
            None => {
                return Err(AppError { code: ErrorCode::Storage, message: MISSING_CREDENTIALS.to_owned(), details: None });
            },
        };
        match self.set.password_for(id, username) {
            Some(p) => Ok(p),
            None => Err(AppError { code: ErrorCode::Storage, message: MISSING_CREDENTIALS.to_owned(), details: None }),
        }
    }
}

/// The identifier of the credential of a program's source: `cfg-` and the SHA-256 digest of
/// the program and source identifiers, joined by a zero byte, in hexadecimal.
pub open spec fn credential_id(program_id: Seq<u8>, source_id: Seq<u8>) -> Seq<char> {
    "cfg-"@ + hex_of(sha256_of(program_id + seq![0u8] + source_id))
}

/// The identifier of the credential of a program's source.
pub fn credential_id_for(program_id: &str, source_id: &str) -> (id: String)
    ensures
        id@ == credential_id(encode_utf8(program_id@), encode_utf8(source_id@)),
{
    let p = program_id.as_bytes();
    let s = source_id.as_bytes();
    let mut joined: Vec<u8> = Vec::new();
    let mut i: usize = 0;
    while i < p.len()
        invariant
            i <= p@.len(),
            joined@ == p@.subrange(0, i as int),
        decreases p@.len() - i,
    {
        joined.push(p[i]);
        i = i + 1;
        assert(joined@ =~= p@.subrange(0, i as int));
    }
    joined.push(0u8);
    let mut j: usize = 0;
    while j < s.len()
        invariant
            j <= s@.len(),
            joined@ == p@ + seq![0u8] + s@.subrange(0, j as int),
        decreases s@.len() - j,
    {
        joined.push(s[j]);
        j = j + 1;
        assert(joined@ =~= p@ + seq![0u8] + s@.subrange(0, j as int));
    }
    assert(joined@ =~= p@ + seq![0u8] + s@);
    let digest = sha256(joined.as_slice());
    let mut id = "cfg-".to_owned();
    push_hex(&mut id, digest.as_slice());
    id
}

/// Whether a text is a credential identifier: `cfg-` and sixty-four lower-case hexadecimal digits.
pub open spec fn is_credential_id(value: Seq<char>) -> bool {
    value.len() == 68 && value.subrange(0, 4) == "cfg-"@ && forall|i: int|
        4 <= i < 68 ==> ('0' <= #[trigger] value[i] <= '9' || 'a' <= value[i] <= 'f')
}

/// Whether a text is a credential identifier.
pub fn valid_credential_id(value: &str) -> (valid: bool)
    ensures
        valid == is_credential_id(value@),
{
    let n = value.unicode_len();
    proof {
        reveal_strlit("cfg-");
    }
    if n != 68 || !crate::text::text_starts_with(value, "cfg-") {
        return false;
    }
    let mut i: usize = 4;
    while i < 68
        invariant
            n == value@.len(),
            n == 68,
            4 <= i <= 68,
            forall|k: int| 4 <= k < i ==> ('0' <= #[trigger] value@[k] <= '9' || 'a' <= value@[k] <= 'f'),
        decreases 68 - i,
    {
        let c = value.get_char(i);
        if !(('0' <= c && c <= '9') || ('a' <= c && c <= 'f')) {
            return false;
        }
        i = i + 1;
    }
    true
}

} // verus!
