use vstd::prelude::*;

use crate::license_session::PendingAuthorizationStore;
use crate::loopback::{
    callback_check_of, callback_texts_fit, callback_url_for, callback_url_of, CallbackCheck, RequestLineError,
};
use crate::text_map::{least_key, TextMap};

verus! {

/// The most authorization callbacks kept at once.
pub const CALLBACK_CAPACITY: usize = 16;

/// The callbacks after storing `url` under `state` in `m`, which holds `count` of them: the
/// one under the first key is dropped when more than the capacity would be kept.
pub open spec fn stored(m: Map<Seq<char>, Seq<char>>, count: nat, state: Seq<char>, url: Seq<char>) -> Map<
    Seq<char>,
    Seq<char>,
> {
    let put = m.insert(state, url);
    if m.contains_key(state) || count < CALLBACK_CAPACITY {
        put
    } else {
        put.remove(least_key(put))
    }
}

/// Reading a callback back after storing it gives what was stored, and it is there unless the
/// book was full and its state comes before every stored one; every other stored callback is
/// kept as it was, unless it is the one whose state comes first.
pub proof fn lemma_store_then_read(
    m: Map<Seq<char>, Seq<char>>,
    count: nat,
    state: Seq<char>,
    url: Seq<char>,
    other: Seq<char>,
)
    ensures
        stored(m, count, state, url).contains_key(state) ==> stored(m, count, state, url)[state] == url,
        m.contains_key(state) || count < CALLBACK_CAPACITY ==> stored(m, count, state, url).contains_key(state),
        other != state && m.contains_key(other) && other != least_key(m.insert(state, url)) ==> {
            &&& stored(m, count, state, url).contains_key(other)
            &&& stored(m, count, state, url)[other] == m[other]
        },
{
}

/// The authorization callbacks that arrived, keyed by authorization state, at most
/// [`CALLBACK_CAPACITY`] of them; storing one more drops the one whose state comes first.
pub struct CallbackBook {
    callbacks: TextMap,
}

impl CallbackBook {
    /// The stored callback URL of each authorization state.
    pub closed spec fn view(&self) -> Map<Seq<char>, Seq<char>> {
        self.callbacks@
    }

    /// How many callbacks are stored.
    pub closed spec fn count(&self) -> nat {
        self.callbacks.count()
    }

    /// The book's invariant: its map is well formed and holds no more than the capacity.
    pub closed spec fn well_formed(&self) -> bool {
        self.callbacks.well_formed() && self.callbacks.count() <= CALLBACK_CAPACITY
    }

    /// An empty book.
    pub fn new() -> (book: Self)
        ensures
            book.well_formed(),
            book@ == Map::<Seq<char>, Seq<char>>::empty(),
            book.count() == 0,
    {
        CallbackBook { callbacks: TextMap::new() }
    }

    /// Whether a callback for `state` is stored.
    pub fn contains(&self, state: &str) -> (found: bool)
        requires
            self.well_formed(),
        ensures
            found == self@.contains_key(state@),
    {
        self.callbacks.contains(state)
    }

    /// The callback URL stored for `state`.
    pub fn get(&self, state: &str) -> (url: Option<String>)
        requires
            self.well_formed(),
        ensures
            match url {
                Some(u) => self@.contains_key(state@) && self@[state@] == u@,
                None => !self@.contains_key(state@),
            },
    {
        self.callbacks.get(state)
    }

    /// Stores `url` as the callback of `state`, replacing an earlier one; when that would keep
    /// more than the capacity, the callback whose state comes first is dropped.
    pub fn store(&mut self, state: String, url: String)
        requires
            old(self).well_formed(),
        ensures
            final(self).well_formed(),
            final(self)@ == stored(old(self)@, old(self).count(), state@, url@),
            final(self).count() == if old(self)@.contains_key(state@) {
                old(self).count()
            } else if old(self).count() < CALLBACK_CAPACITY {
                old(self).count() + 1
            } else {
                CALLBACK_CAPACITY as nat
            },
    {
        self.callbacks.insert(state, url);
        if self.callbacks.len() > CALLBACK_CAPACITY {
            self.callbacks.remove_first();
        }
    }

    /// Drops the callback of `state`; whether there was one.
    pub fn remove(&mut self, state: &str) -> (removed: bool)
        requires
            old(self).well_formed(),
        ensures
            final(self).well_formed(),
            removed == old(self)@.contains_key(state@),
            final(self)@ == old(self)@.remove(state@),
            removed ==> old(self).count() > 0 && final(self).count() == old(self).count() - 1,
            !removed ==> final(self).count() == old(self).count(),
    {
        self.callbacks.remove(state)
    }

    /// Drops every callback.
    pub fn clear(&mut self)
        ensures
            final(self).well_formed(),
            final(self)@ == Map::<Seq<char>, Seq<char>>::empty(),
            final(self).count() == 0,
    {
        self.callbacks.clear();
    }

    /// How many callbacks are stored.
    pub fn len(&self) -> (count: usize)
        ensures
            count == self.count(),
    {
        self.callbacks.len()
    }
}


/// Keeps the callback `url` of authorization `state` only while that authorization is pending
/// at `now` (an expired one is dropped); the result says whether it was kept.
pub fn keep_callback(
    book: &mut CallbackBook,
    pending: &mut PendingAuthorizationStore,
    state: &str,
    url: String,
    now: u64,
) -> (kept: bool)
    requires
        old(book).well_formed(),
        old(pending).well_formed(),
    ensures
        final(book).well_formed(),
        final(pending).well_formed(),
        kept == (old(pending).sessions().contains_key(state@) && old(pending).sessions()[state@].expires_at > now),
        final(pending).sessions() == if kept {
            old(pending).sessions()
        } else {
            old(pending).sessions().remove(state@)
        },
        final(book)@ == if kept {
            stored(old(book)@, old(book).count(), state@, url@)
        } else {
            old(book)@
        },
{
    if !pending.contains_active(state, now) {
        return false;
    }
    book.store(state.to_owned(), url);
    true
}

/// Handles the callback request line `line` for the authorization `state`: the callback URL
/// made from it and the redirect URI is kept only when the line is a GET of the callback path,
/// the redirect URI is a URL, the callback answers the authorization (`callback_valid`, checked
/// on that URL), and the authorization is still pending at `now`. The result says how far it got;
/// nothing changes unless the authorization was checked, and only an expired or unknown one is
/// dropped.
pub fn store_validated_callback(
    book: &mut CallbackBook,
    pending: &mut PendingAuthorizationStore,
    line: &Result<String, RequestLineError>,
    redirect_uri: &str,
    state: &str,
    callback_valid: bool,
    now: u64,
) -> (check: CallbackCheck)
    requires
        old(book).well_formed(),
        old(pending).well_formed(),
        callback_texts_fit(*line, redirect_uri@),
    ensures
        final(book).well_formed(),
        final(pending).well_formed(),
        final(book).count() <= CALLBACK_CAPACITY,
        check == callback_check_of(
            *line,
            redirect_uri@,
            callback_valid,
            old(pending).sessions().contains_key(state@) && old(pending).sessions()[state@].expires_at > now,
        ),
        match (check, *line) {
            (CallbackCheck::Stored, Ok(l)) => final(book)@ == stored(
                old(book)@,
                old(book).count(),
                state@,
                callback_url_of(l@, redirect_uri@),
            ),
            _ => final(book)@ == old(book)@,
        },
        final(pending).sessions() == if check is InactiveSession {
            old(pending).sessions().remove(state@)
        } else {
            old(pending).sessions()
        },
{
    let url = match callback_url_for(line, redirect_uri) {
        Ok(u) => u,
        Err(c) => {
            return c;
        },
    };
    if !callback_valid {
        return CallbackCheck::InvalidCallback;
    }
    if keep_callback(book, pending, state, url, now) {
        CallbackCheck::Stored
    } else {
        CallbackCheck::InactiveSession
    }
}

} // verus!
