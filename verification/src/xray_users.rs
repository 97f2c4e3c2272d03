use vstd::prelude::*;

use crate::json::{
    get, get_member, lemma_view_items, lemma_view_members, text_member, view_items,
    view_members, JsonView, Value,
};
use crate::sorted_texts::{insert_sorted_unique, strictly_sorted, texts};
use crate::text::{
    lemma_text_less_irreflexive, lemma_text_less_transitive, text_less, text_order, TextOrder,
};
use crate::xray_stats::{
    either_member, either_member_of, signed_stat, signed_stat_value, unsigned_stat, unsigned_stat_value,
    XrayOnlineAddress, XrayOnlineUser, XrayOnlineUsersSummary, online_map_email, xray_online_map_email,
    online_policy_enabled, xray_online_policy_enabled, user_metrics_of, xray_user_metrics,
};

verus! {

/// The items of the array under `field`, or none when there is no such array.
pub open spec fn array_under(v: JsonView, field: Seq<char>) -> Seq<JsonView> {
    match get(v, field) {
        Some(JsonView::Array(items)) => items,
        _ => Seq::empty(),
    }
}

/// The tag a handler reports, when it is a non-empty text.
pub open spec fn handler_tag(handler: JsonView) -> Option<Seq<char>> {
    match text_member(handler, "tag"@) {
        Some(t) => if t.len() > 0 {
            Some(t)
        } else {
            None
        },
        None => None,
    }
}

/// The tags of the handlers listed under `field` in a reply of `xray api lsi` or `lso`.
pub open spec fn handler_tag_set(response: JsonView, field: Seq<char>) -> Set<Seq<char>> {
    Set::new(
        |t: Seq<char>|
            exists|i: int|
                0 <= i < array_under(response, field).len() && handler_tag(
                    #[trigger] array_under(response, field)[i],
                ) == Some(t),
    )
}

/// The tags of the handlers under `field` in a reply of `xray api lsi` or `lso`, sorted, each
/// once; handlers without a non-empty tag are left out.
pub fn xray_handler_tags(response: &Value, field: &str) -> (tags: Vec<String>)
    ensures
        strictly_sorted(texts(tags@)),
        texts(tags@).to_set() == handler_tag_set(response.view(), field@),
{
    match get_member(response, field) {
        Some(Value::Array(items)) => {
            let tags = handler_tags_of(items);
            assert(texts(tags@).to_set() =~= handler_tag_set(response.view(), field@));
            tags
        },
        _ => {
            let tags: Vec<String> = Vec::new();
            assert(texts(tags@).to_set() =~= handler_tag_set(response.view(), field@));
            tags
        },
    }
}

fn handler_tags_of(items: &Vec<Value>) -> (tags: Vec<String>)
    ensures
        strictly_sorted(texts(tags@)),
        texts(tags@).to_set() == Set::new(
            |t: Seq<char>|
                exists|j: int|
                    0 <= j < view_items(items@).len() && handler_tag(#[trigger] view_items(items@)[j])
                        == Some(t),
        ),
{
    let ghost all = view_items(items@);
    proof {
        lemma_view_items(items@);
    }
    let mut tags: Vec<String> = Vec::new();
    let mut i: usize = 0;
    assert(texts(tags@).to_set() =~= Set::<Seq<char>>::empty());
    while i < items.len()
        invariant
            i <= items@.len(),
            all == view_items(items@),
            all.len() == items@.len(),
            forall|j: int| 0 <= j < items@.len() ==> #[trigger] all[j] == items@[j].view(),
            strictly_sorted(texts(tags@)),
            texts(tags@).to_set() == Set::new(
                |t: Seq<char>| exists|j: int| 0 <= j < i && handler_tag(#[trigger] all[j]) == Some(t),
            ),
        decreases items@.len() - i,
    {
        let ghost before = texts(tags@).to_set();
        assert(all[i as int] == items@[i as int].view());
        if let Some(Value::Text(tag)) = get_member(&items[i], "tag") {
            if tag.as_str().unicode_len() > 0 {
                insert_sorted_unique(&mut tags, tag.clone());
            }
        }
        assert(texts(tags@).to_set() =~= Set::new(
            |t: Seq<char>| exists|j: int| 0 <= j < i + 1 && handler_tag(#[trigger] all[j]) == Some(t),
        )) by {
            assert forall|t: Seq<char>| #[trigger] texts(tags@).to_set().contains(t) == (exists|j: int|
                0 <= j < i + 1 && handler_tag(#[trigger] all[j]) == Some(t)) by {
                if exists|j: int| 0 <= j < i + 1 && handler_tag(#[trigger] all[j]) == Some(t) {
                    let j = choose|j: int| 0 <= j < i + 1 && handler_tag(#[trigger] all[j]) == Some(t);
                    if j < i {
                        assert(before.contains(t));
                    }
                }
                if texts(tags@).to_set().contains(t) && !before.contains(t) {
                    assert(handler_tag(all[i as int]) == Some(t));
                }
            }
        }
        i = i + 1;
    }
    tags
}

/// Whether the observatory saw an outbound alive.
pub open spec fn alive(status: JsonView) -> bool {
    get(status, "alive"@) == Some(JsonView::Bool(true))
}

/// The outbound an observatory entry is about: its non-empty `outbound_tag` (or, when that
/// member is missing, `outboundTag`), else the entry's own name.
pub open spec fn observed_outbound(name: Seq<char>, status: JsonView) -> Seq<char> {
    match either_member(status, "outbound_tag"@, "outboundTag"@) {
        Some(JsonView::Text(t)) => if t.len() > 0 {
            t
        } else {
            name
        },
        _ => name,
    }
}

/// The outbounds that the observatory in the metrics reports alive.
pub open spec fn alive_outbound_set(metrics: Option<JsonView>) -> Set<Seq<char>> {
    match metrics {
        Some(m) => match get(m, "observatory"@) {
            Some(JsonView::Object(entries)) => Set::new(
                |t: Seq<char>|
                    exists|i: int|
                        0 <= i < entries.len() && alive(#[trigger] entries[i].1) && observed_outbound(
                            entries[i].0,
                            entries[i].1,
                        ) == t,
            ),
            _ => Set::empty(),
        },
        None => Set::empty(),
    }
}

/// The outbounds that the observatory in the Xray metrics reports alive, sorted, each once.
pub fn xray_alive_outbounds(metrics: Option<&Value>) -> (outbounds: Vec<String>)
    ensures
        strictly_sorted(texts(outbounds@)),
        texts(outbounds@).to_set() == alive_outbound_set(
            match metrics {
                Some(m) => Some(m.view()),
                None => None,
            },
        ),
{
    let mut outbounds: Vec<String> = Vec::new();
    assert(texts(outbounds@).to_set() =~= Set::<Seq<char>>::empty());
    let m = match metrics {
        Some(m) => m,
        None => {
            return outbounds;
        },
    };
    let entries = match get_member(m, "observatory") {
        Some(Value::Object(entries)) => entries,
        _ => {
            return outbounds;
        },
    };
    let ghost all = view_members(entries@);
    proof {
        lemma_view_members(entries@);
    }
    let mut i: usize = 0;
    while i < entries.len()
        invariant
            i <= entries@.len(),
            all == view_members(entries@),
            all.len() == entries@.len(),
            forall|j: int| 0 <= j < entries@.len() ==> #[trigger] all[j] == (entries@[j].key@, entries@[j].value.view()),
            strictly_sorted(texts(outbounds@)),
            texts(outbounds@).to_set() == Set::new(
                |t: Seq<char>|
                    exists|j: int|
                        0 <= j < i && alive(#[trigger] all[j].1) && observed_outbound(all[j].0, all[j].1) == t,
            ),
        decreases entries@.len() - i,
    {
        let ghost before = texts(outbounds@).to_set();
        let status = &entries[i].value;
        assert(all[i as int] == (entries@[i as int].key@, entries@[i as int].value.view()));
        let is_alive = match get_member(status, "alive") {
            Some(Value::Bool(b)) => *b,
            _ => false,
        };
        if is_alive {
            let tag = match either_member_of(status, "outbound_tag", "outboundTag") {
                Some(Value::Text(t)) => if t.as_str().unicode_len() > 0 {
                    t.clone()
                } else {
                    entries[i].key.clone()
                },
                _ => entries[i].key.clone(),
            };
            assert(tag@ == observed_outbound(all[i as int].0, all[i as int].1));
            insert_sorted_unique(&mut outbounds, tag);
        }
        assert(texts(outbounds@).to_set() =~= Set::new(
            |t: Seq<char>|
                exists|j: int|
                    0 <= j < i + 1 && alive(#[trigger] all[j].1) && observed_outbound(all[j].0, all[j].1) == t,
        )) by {
            assert forall|t: Seq<char>| #[trigger] texts(outbounds@).to_set().contains(t) == (exists|j: int|
                0 <= j < i + 1 && alive(#[trigger] all[j].1) && observed_outbound(all[j].0, all[j].1) == t) by {
                if exists|j: int| 0 <= j < i + 1 && alive(#[trigger] all[j].1) && observed_outbound(all[j].0, all[j].1) == t {
                    let j = choose|j: int| 0 <= j < i + 1 && alive(#[trigger] all[j].1) && observed_outbound(all[j].0, all[j].1) == t;
                    if j < i {
                        assert(before.contains(t));
                    }
                }
                if texts(outbounds@).to_set().contains(t) && !before.contains(t) {
                    assert(alive(all[i as int].1) && observed_outbound(all[i as int].0, all[i as int].1) == t);
                }
            }
        }
        i = i + 1;
    }
    assert(Set::new(
        |t: Seq<char>|
            exists|j: int| 0 <= j < i && alive(#[trigger] all[j].1) && observed_outbound(all[j].0, all[j].1) == t,
    ) =~= alive_outbound_set(Some(m.view())));
    outbounds
}

/// The non-empty `email` of a user entry.
pub open spec fn user_email(user: JsonView) -> Option<Seq<char>> {
    match text_member(user, "email"@) {
        Some(e) => if e.len() > 0 {
            Some(e)
        } else {
            None
        },
        None => None,
    }
}

/// The e-mail addresses of a list of user entries, in order.
pub open spec fn emails_in(items: Seq<JsonView>) -> Seq<Seq<char>>
    decreases items.len(),
{
    if items.len() == 0 {
        Seq::empty()
    } else {
        emails_in(items.drop_last()) + match user_email(items.last()) {
            Some(e) => seq![e],
            None => Seq::empty(),
        }
    }
}

/// The users an inbound configures: those listed under `clients` and `users` in its settings,
/// then the settings' own `email`.
pub open spec fn inbound_emails(inbound: JsonView) -> Seq<Seq<char>> {
    match get(inbound, "settings"@) {
        Some(JsonView::Object(m)) => {
            let settings = JsonView::Object(m);
            emails_in(array_under(settings, "clients"@)) + emails_in(array_under(settings, "users"@))
                + match user_email(settings) {
                Some(e) => seq![e],
                None => Seq::empty(),
            }
        },
        _ => Seq::empty(),
    }
}

/// Whether an inbound listens on a loopback address only.
pub open spec fn loopback_inbound(inbound: JsonView) -> bool {
    match text_member(inbound, "listen"@) {
        Some(l) => l == "127.0.0.1"@ || l == "::1"@ || l == "localhost"@,
        None => false,
    }
}

/// The users that the inbounds of a configuration name.
pub open spec fn configured_user_set(root: JsonView) -> Set<Seq<char>> {
    Set::new(
        |e: Seq<char>|
            exists|i: int|
                0 <= i < array_under(root, "inbounds"@).len() && inbound_emails(
                    #[trigger] array_under(root, "inbounds"@)[i],
                ).contains(e),
    )
}

/// Whether users are configured and every inbound that names one listens on loopback only.
pub open spec fn configured_loopback_only(root: JsonView) -> bool {
    let inbounds = array_under(root, "inbounds"@);
    &&& exists|i: int| 0 <= i < inbounds.len() && inbound_emails(#[trigger] inbounds[i]).len() > 0
    &&& forall|i: int|
        0 <= i < inbounds.len() && inbound_emails(#[trigger] inbounds[i]).len() > 0 ==> loopback_inbound(
            inbounds[i],
        )
}

fn push_emails(out: &mut Vec<String>, items: &Vec<Value>)
    ensures
        texts(final(out)@) == texts(old(out)@) + emails_in(view_items(items@)),
{
    let ghost all = view_items(items@);
    proof {
        lemma_view_items(items@);
    }
    let ghost start = texts(out@);
    let mut i: usize = 0;
    while i < items.len()
        invariant
            i <= items@.len(),
            all == view_items(items@),
            all.len() == items@.len(),
            forall|j: int| 0 <= j < items@.len() ==> #[trigger] all[j] == items@[j].view(),
            texts(out@) == start + emails_in(all.subrange(0, i as int)),
        decreases items@.len() - i,
    {
        assert(all[i as int] == items@[i as int].view());
        proof {
            let next = all.subrange(0, i + 1);
            assert(next.drop_last() =~= all.subrange(0, i as int));
        }
        if let Some(Value::Text(email)) = get_member(&items[i], "email") {
            if email.as_str().unicode_len() > 0 {
                let ghost before = texts(out@);
                out.push(email.clone());
                assert(texts(out@) =~= before.push(email@));
                assert(texts(out@) =~= start + emails_in(all.subrange(0, i + 1)));
            }
        }
        i = i + 1;
    }
    assert(all.subrange(0, i as int) =~= all);
}

fn inbound_email_list(inbound: &Value) -> (emails: Vec<String>)
    ensures
        texts(emails@) == inbound_emails(inbound.view()),
{
    let mut emails: Vec<String> = Vec::new();
    match get_member(inbound, "settings") {
        Some(settings) => {
            match settings {
                Value::Object(_) => {},
                _ => {
                    assert(texts(emails@) =~= inbound_emails(inbound.view()));
                    return emails;
                },
            }
            assert(texts(emails@) =~= Seq::<Seq<char>>::empty());
            match get_member(settings, "clients") {
                Some(Value::Array(items)) => push_emails(&mut emails, items),
                _ => {},
            }
            assert(texts(emails@) =~= emails_in(array_under(settings.view(), "clients"@)));
            let ghost after_clients = texts(emails@);
            match get_member(settings, "users") {
                Some(Value::Array(items)) => push_emails(&mut emails, items),
                _ => {},
            }
            assert(texts(emails@) =~= after_clients + emails_in(array_under(settings.view(), "users"@)));
            let ghost after_users = texts(emails@);
            if let Some(Value::Text(email)) = get_member(settings, "email") {
                if email.as_str().unicode_len() > 0 {
                    emails.push(email.clone());
                }
            }
            assert(texts(emails@) =~= inbound_emails(inbound.view()));
            emails
        },
        None => {
            assert(texts(emails@) =~= inbound_emails(inbound.view()));
            emails
        },
    }
}

fn is_loopback_inbound(inbound: &Value) -> (loopback: bool)
    ensures
        loopback == loopback_inbound(inbound.view()),
{
    match get_member(inbound, "listen") {
        Some(Value::Text(listen)) => {
            let v4 = "127.0.0.1";
            let v6 = "::1";
            let name = "localhost";
            proof {
                reveal_strlit("127.0.0.1");
                reveal_strlit("::1");
                reveal_strlit("localhost");
            }
            crate::text::text_eq(listen.as_str(), v4) || crate::text::text_eq(listen.as_str(), v6)
                || crate::text::text_eq(listen.as_str(), name)
        },
        _ => false,
    }
}

/// The users that the inbounds of an Xray configuration name, sorted, each once; and whether
/// there are some and every inbound that names one listens on loopback only.
pub fn xray_configured_users(root: &Value) -> (configured: (Vec<String>, bool))
    ensures
        strictly_sorted(texts(configured.0@)),
        texts(configured.0@).to_set() == configured_user_set(root.view()),
        configured.1 == configured_loopback_only(root.view()),
{
    let mut users: Vec<String> = Vec::new();
    let ghost inbounds_view = array_under(root.view(), "inbounds"@);
    assert(texts(users@).to_set() =~= Set::<Seq<char>>::empty());
    let inbounds = match get_member(root, "inbounds") {
        Some(Value::Array(items)) => items,
        _ => {
            assert(texts(users@).to_set() =~= configured_user_set(root.view()));
            return (users, false);
        },
    };
    let ghost all = view_items(inbounds@);
    proof {
        lemma_view_items(inbounds@);
    }
    let mut any_user = false;
    let mut all_loopback = true;
    let mut i: usize = 0;
    while i < inbounds.len()
        invariant
            i <= inbounds@.len(),
            all == view_items(inbounds@),
            all == inbounds_view,
            all.len() == inbounds@.len(),
            forall|j: int| 0 <= j < inbounds@.len() ==> #[trigger] all[j] == inbounds@[j].view(),
            strictly_sorted(texts(users@)),
            texts(users@).to_set() == Set::new(
                |e: Seq<char>| exists|j: int| 0 <= j < i && inbound_emails(#[trigger] all[j]).contains(e),
            ),
            any_user == exists|j: int| 0 <= j < i && inbound_emails(#[trigger] all[j]).len() > 0,
            all_loopback == forall|j: int|
                0 <= j < i && inbound_emails(#[trigger] all[j]).len() > 0 ==> loopback_inbound(all[j]),
        decreases inbounds@.len() - i,
    {
        assert(all[i as int] == inbounds@[i as int].view());
        let emails = inbound_email_list(&inbounds[i]);
        let loopback = is_loopback_inbound(&inbounds[i]);
        let ghost before = texts(users@).to_set();
        let ghost es = texts(emails@);
        let mut k: usize = 0;
        while k < emails.len()
            invariant
                k <= emails@.len(),
                es == texts(emails@),
                strictly_sorted(texts(users@)),
                texts(users@).to_set() == before + es.subrange(0, k as int).to_set(),
            decreases emails@.len() - k,
        {
            insert_sorted_unique(&mut users, emails[k].clone());
            assert(es.subrange(0, k + 1).to_set() =~= es.subrange(0, k as int).to_set().insert(es[k as int])) by {
                assert(es.subrange(0, k + 1) =~= es.subrange(0, k as int).push(es[k as int]));
                es.subrange(0, k as int).lemma_push_to_set_commute(es[k as int]);
            }
            assert(texts(users@).to_set() =~= before + es.subrange(0, k + 1).to_set());
            k = k + 1;
        }
        assert(es.subrange(0, k as int) =~= es);
        if emails.len() > 0 {
            any_user = true;
            if !loopback {
                all_loopback = false;
            }
        }
        assert(texts(users@).to_set() =~= Set::new(
            |e: Seq<char>| exists|j: int| 0 <= j < i + 1 && inbound_emails(#[trigger] all[j]).contains(e),
        )) by {
            assert forall|e: Seq<char>| #[trigger] texts(users@).to_set().contains(e) == (exists|j: int|
                0 <= j < i + 1 && inbound_emails(#[trigger] all[j]).contains(e)) by {
                if exists|j: int| 0 <= j < i + 1 && inbound_emails(#[trigger] all[j]).contains(e) {
                    let j = choose|j: int| 0 <= j < i + 1 && inbound_emails(#[trigger] all[j]).contains(e);
                    if j < i {
                        assert(before.contains(e));
                    } else {
                        assert(es.to_set().contains(e));
                    }
                }
                if texts(users@).to_set().contains(e) && !before.contains(e) {
                    assert(es.to_set().contains(e));
                    assert(inbound_emails(all[i as int]).contains(e));
                }
            }
        }
        assert(emails@.len() == es.len());
        i = i + 1;
    }
    assert(texts(users@).to_set() =~= configured_user_set(root.view()));
    (users, any_user && all_loopback)
}

/// A user as the dashboard shows it: e-mail, whether online (when known), addresses with the
/// time each was last seen, and uplink and downlink bytes.
pub type UserView = (Seq<char>, Option<bool>, Seq<(Seq<char>, i64)>, u64, u64);

pub open spec fn address_views(addresses: Seq<XrayOnlineAddress>) -> Seq<(Seq<char>, i64)> {
    Seq::new(addresses.len(), |i: int| (addresses[i].ip@, addresses[i].last_seen_unix))
}

pub open spec fn user_view(user: XrayOnlineUser) -> UserView {
    (user.email@, user.online, address_views(user.addresses@), user.uplink, user.downlink)
}

pub open spec fn user_views(users: Seq<XrayOnlineUser>) -> Seq<UserView> {
    Seq::new(users.len(), |i: int| user_view(users[i]))
}

/// An address entry of an online user: its `ip`, and when it was last seen (`lastSeen`, or
/// `last_seen` when that is missing).
pub open spec fn online_address(address: JsonView) -> Option<(Seq<char>, i64)> {
    match text_member(address, "ip"@) {
        Some(ip) => Some((ip, signed_stat(either_member(address, "lastSeen"@, "last_seen"@)))),
        None => None,
    }
}

/// The address entries that have an `ip`, in order.
pub open spec fn online_addresses(items: Seq<JsonView>) -> Seq<(Seq<char>, i64)>
    decreases items.len(),
{
    if items.len() == 0 {
        Seq::empty()
    } else {
        online_addresses(items.drop_last()) + match online_address(items.last()) {
            Some(a) => seq![a],
            None => Seq::empty(),
        }
    }
}

/// A user entry of a reply of `xray api statsonlineiplist`: online, with its addresses and traffic.
pub open spec fn reported_user(user: JsonView) -> Option<UserView> {
    match text_member(user, "email"@) {
        Some(email) => {
            let traffic = match get(user, "traffic"@) {
                Some(t) => t,
                None => JsonView::Null,
            };
            Some(
                (
                    email,
                    Some(true),
                    online_addresses(array_under(user, "ips"@)),
                    unsigned_stat(get(traffic, "uplink"@)),
                    unsigned_stat(get(traffic, "downlink"@)),
                ),
            )
        },
        None => None,
    }
}

/// The user entries that have an e-mail, in reply order.
pub open spec fn reported_users(items: Seq<JsonView>) -> Seq<UserView>
    decreases items.len(),
{
    if items.len() == 0 {
        Seq::empty()
    } else {
        reported_users(items.drop_last()) + match reported_user(items.last()) {
            Some(u) => seq![u],
            None => Seq::empty(),
        }
    }
}

/// `user` put into a list sorted by e-mail, after every user whose e-mail does not come after
/// its own.
pub open spec fn insert_by_email(sorted: Seq<UserView>, user: UserView) -> Seq<UserView>
    decreases sorted.len(),
{
    if sorted.len() == 0 {
        seq![user]
    } else if text_less(user.0, sorted.last().0) {
        insert_by_email(sorted.drop_last(), user).push(sorted.last())
    } else {
        sorted.push(user)
    }
}

/// A list sorted by e-mail, users with the same e-mail kept in their order (a stable sort).
pub open spec fn sorted_by_email(users: Seq<UserView>) -> Seq<UserView>
    decreases users.len(),
{
    if users.len() == 0 {
        Seq::empty()
    } else {
        insert_by_email(sorted_by_email(users.drop_last()), users.last())
    }
}

proof fn lemma_insert_by_email_at(sorted: Seq<UserView>, user: UserView, p: int)
    requires
        0 <= p <= sorted.len(),
        forall|k: int| p <= k < sorted.len() ==> text_less(user.0, #[trigger] sorted[k].0),
        p > 0 ==> !text_less(user.0, sorted[p - 1].0),
    ensures
        insert_by_email(sorted, user) == sorted.insert(p, user),
    decreases sorted.len(),
{
    if sorted.len() == 0 {
        assert(sorted.insert(p, user) =~= seq![user]);
    } else if p == sorted.len() {
        assert(sorted.insert(p, user) =~= sorted.push(user));
    } else {
        let rest = sorted.drop_last();
        assert(text_less(user.0, sorted.last().0));
        assert forall|k: int| p <= k < rest.len() implies text_less(user.0, #[trigger] rest[k].0) by {
            assert(rest[k] == sorted[k]);
        }
        if p > 0 {
            assert(rest[p - 1] == sorted[p - 1]);
        }
        lemma_insert_by_email_at(rest, user, p);
        assert(rest.insert(p, user).push(sorted.last()) =~= sorted.insert(p, user));
    }
}

fn addresses_of(items: &Vec<Value>) -> (addresses: Vec<XrayOnlineAddress>)
    ensures
        address_views(addresses@) == online_addresses(view_items(items@)),
{
    let ghost all = view_items(items@);
    proof {
        lemma_view_items(items@);
    }
    let mut addresses: Vec<XrayOnlineAddress> = Vec::new();
    let mut i: usize = 0;
    while i < items.len()
        invariant
            i <= items@.len(),
            all == view_items(items@),
            all.len() == items@.len(),
            forall|j: int| 0 <= j < items@.len() ==> #[trigger] all[j] == items@[j].view(),
            address_views(addresses@) == online_addresses(all.subrange(0, i as int)),
        decreases items@.len() - i,
    {
        assert(all[i as int] == items@[i as int].view());
        proof {
            let next = all.subrange(0, i + 1);
            assert(next.drop_last() =~= all.subrange(0, i as int));
        }
        let ghost before = address_views(addresses@);
        if let Some(Value::Text(ip)) = get_member(&items[i], "ip") {
            let seen = signed_stat_value(either_member_of(&items[i], "lastSeen", "last_seen"));
            addresses.push(XrayOnlineAddress { ip: ip.clone(), last_seen_unix: seen });
            assert(address_views(addresses@) =~= before.push((ip@, seen)));
        } else {
            assert(address_views(addresses@) =~= before);
        }
        i = i + 1;
    }
    assert(all.subrange(0, i as int) =~= all);
    addresses
}

fn reported_user_of(user: &Value) -> (parsed: Option<XrayOnlineUser>)
    ensures
        match parsed {
            Some(u) => reported_user(user.view()) == Some(user_view(u)),
            None => reported_user(user.view()) is None,
        },
{
    let email = match get_member(user, "email") {
        Some(Value::Text(email)) => email.clone(),
        _ => {
            return None;
        },
    };
    let addresses = match get_member(user, "ips") {
        Some(Value::Array(items)) => addresses_of(items),
        _ => {
            let none: Vec<XrayOnlineAddress> = Vec::new();
            assert(address_views(none@) =~= Seq::<(Seq<char>, i64)>::empty());
            none
        },
    };
    let (uplink, downlink) = match get_member(user, "traffic") {
        Some(traffic) => (
            unsigned_stat_value(get_member(traffic, "uplink")),
            unsigned_stat_value(get_member(traffic, "downlink")),
        ),
        None => (0, 0),
    };
    Some(XrayOnlineUser { email, online: Some(true), addresses, uplink, downlink })
}

/// The users in a reply of `xray api statsonlineiplist`, sorted by e-mail (users with the same
/// e-mail keep their reply order): each online, with its addresses and traffic.
pub fn parse_xray_online_users(response: &Value) -> (users: Vec<XrayOnlineUser>)
    ensures
        user_views(users@) == sorted_by_email(reported_users(array_under(response.view(), "users"@))),
{
    let mut users: Vec<XrayOnlineUser> = Vec::new();
    let items = match get_member(response, "users") {
        Some(Value::Array(items)) => items,
        _ => {
            assert(user_views(users@) =~= Seq::<UserView>::empty());
            return users;
        },
    };
    let ghost all = view_items(items@);
    proof {
        lemma_view_items(items@);
        assert(user_views(users@) =~= Seq::<UserView>::empty());
    }
    let mut i: usize = 0;
    while i < items.len()
        invariant
            i <= items@.len(),
            all == view_items(items@),
            all.len() == items@.len(),
            forall|j: int| 0 <= j < items@.len() ==> #[trigger] all[j] == items@[j].view(),
            user_views(users@) == sorted_by_email(reported_users(all.subrange(0, i as int))),
        decreases items@.len() - i,
    {
        assert(all[i as int] == items@[i as int].view());
        proof {
            let next = all.subrange(0, i + 1);
            assert(next.drop_last() =~= all.subrange(0, i as int));
        }
        let ghost before = user_views(users@);
        match reported_user_of(&items[i]) {
            Some(user) => {
                let ghost u = user_view(user);
                let mut p: usize = users.len();
                while p > 0 && is_less(user.email.as_str(), users[p - 1].email.as_str())
                    invariant
                        p <= users@.len(),
                        u == user_view(user),
                        before == user_views(users@),
                        forall|k: int| p <= k < users@.len() ==> text_less(u.0, #[trigger] before[k].0),
                    decreases p,
                {
                    assert(before[p - 1] == user_view(users@[p - 1]));
                    p = p - 1;
                }
                proof {
                    if p > 0 {
                        assert(before[p - 1] == user_view(users@[p - 1]));
                    }
                    lemma_insert_by_email_at(before, u, p as int);
                }
                users.insert(p, user);
                assert(user_views(users@) =~= before.insert(p as int, u));
                let ghost prior = reported_users(all.subrange(0, i as int));
                assert(reported_users(all.subrange(0, i + 1)) =~= prior.push(u));
                assert(prior.push(u).drop_last() =~= prior);
            },
            None => {
                assert(reported_users(all.subrange(0, i + 1)) =~= reported_users(all.subrange(0, i as int)));
            },
        }
        i = i + 1;
    }
    assert(all.subrange(0, i as int) =~= all);
    users
}

pub fn is_less(a: &str, b: &str) -> (less: bool)
    ensures
        less == text_less(a@, b@),
{
    match text_order(a, b) {
        TextOrder::Less => true,
        TextOrder::Equal => {
            proof {
                crate::text::lemma_text_less_irreflexive(a@);
            }
            false
        },
        TextOrder::Greater => {
            proof {
                crate::text::lemma_text_less_asymmetric(b@, a@);
            }
            false
        },
    }
}

/// The users named in a reply of `xray api statsgetallonlineusers`, in reply order, each online.
pub open spec fn fallback_users(items: Seq<JsonView>) -> Seq<UserView>
    decreases items.len(),
{
    if items.len() == 0 {
        Seq::empty()
    } else {
        fallback_users(items.drop_last()) + match items.last() {
            JsonView::Text(name) => match online_map_email(name) {
                Some(email) => seq![(email, Some(true), Seq::<(Seq<char>, i64)>::empty(), 0u64, 0u64)],
                None => Seq::empty(),
            },
            _ => Seq::empty(),
        }
    }
}

fn online_user(email: String) -> (user: XrayOnlineUser)
    ensures
        user_view(user) == (email@, Some(true), Seq::<(Seq<char>, i64)>::empty(), 0u64, 0u64),
{
    let addresses: Vec<XrayOnlineAddress> = Vec::new();
    assert(address_views(addresses@) =~= Seq::<(Seq<char>, i64)>::empty());
    XrayOnlineUser { email, online: Some(true), addresses, uplink: 0, downlink: 0 }
}

/// The users named in a reply of `xray api statsgetallonlineusers` (the older list of online
/// users), in reply order: each online, with no addresses or traffic.
pub fn fallback_online_users(response: &Value) -> (users: Vec<XrayOnlineUser>)
    ensures
        user_views(users@) == fallback_users(array_under(response.view(), "users"@)),
{
    let mut users: Vec<XrayOnlineUser> = Vec::new();
    let items = match get_member(response, "users") {
        Some(Value::Array(items)) => items,
        _ => {
            assert(user_views(users@) =~= Seq::<UserView>::empty());
            return users;
        },
    };
    let ghost all = view_items(items@);
    proof {
        lemma_view_items(items@);
        assert(user_views(users@) =~= Seq::<UserView>::empty());
    }
    let mut i: usize = 0;
    while i < items.len()
        invariant
            i <= items@.len(),
            all == view_items(items@),
            all.len() == items@.len(),
            forall|j: int| 0 <= j < items@.len() ==> #[trigger] all[j] == items@[j].view(),
            user_views(users@) == fallback_users(all.subrange(0, i as int)),
        decreases items@.len() - i,
    {
        assert(all[i as int] == items@[i as int].view());
        proof {
            let next = all.subrange(0, i + 1);
            assert(next.drop_last() =~= all.subrange(0, i as int));
        }
        let ghost before = user_views(users@);
        if let Value::Text(name) = &items[i] {
            if let Some(email) = xray_online_map_email(name.as_str()) {
                let user = online_user(email);
                users.push(user);
                assert(user_views(users@) =~= before.push(user_view(user)));
            } else {
                assert(user_views(users@) =~= before);
            }
        } else {
            assert(user_views(users@) =~= before);
        }
        i = i + 1;
    }
    assert(all.subrange(0, i as int) =~= all);
    users
}

/// A configured user before anything is known of it: offline when online status is available,
/// unknown otherwise.
pub open spec fn offline_user(email: Seq<char>, status_available: bool) -> UserView {
    (email, if status_available {
        Some(false)
    } else {
        None
    }, Seq::empty(), 0u64, 0u64)
}

/// The configured users, each offline, with the reported users laid over them by e-mail
/// (a later report of an e-mail replacing an earlier one).
pub open spec fn merged_users(configured: Set<Seq<char>>, reported: Seq<UserView>, status_available: bool) -> Map<
    Seq<char>,
    UserView,
>
    decreases reported.len(),
{
    if reported.len() == 0 {
        Map::new(|e: Seq<char>| configured.contains(e), |e: Seq<char>| offline_user(e, status_available))
    } else {
        merged_users(configured, reported.drop_last(), status_available).insert(
            reported.last().0,
            reported.last(),
        )
    }
}

/// A user with the traffic that the Metrics reply records for it, when it records any.
pub open spec fn with_metrics(user: UserView, metrics: Option<JsonView>) -> UserView {
    match user_metrics_of(metrics, user.0) {
        Some((uplink, downlink)) => (user.0, user.1, user.2, uplink, downlink),
        None => user,
    }
}

pub open spec fn user_emails(users: Seq<XrayOnlineUser>) -> Seq<Seq<char>> {
    Seq::new(users.len(), |i: int| users[i].email@)
}

/// How many of the users are online.
pub open spec fn online_count(users: Seq<UserView>) -> nat
    decreases users.len(),
{
    if users.len() == 0 {
        0
    } else {
        online_count(users.drop_last()) + if users.last().1 == Some(true) {
            1nat
        } else {
            0nat
        }
    }
}

/// How many addresses the users have together.
pub open spec fn address_total(users: Seq<UserView>) -> nat
    decreases users.len(),
{
    if users.len() == 0 {
        0
    } else {
        address_total(users.drop_last()) + users.last().2.len()
    }
}

/// Whether the online users are asked of the Xray API: only when the policy reports them and
/// not every configured user is reachable on loopback only.
pub open spec fn online_query_wanted(root: JsonView) -> bool {
    online_policy_enabled(root) && !configured_loopback_only(root)
}

/// Whether the online users of a running Xray are to be asked of its API.
pub fn online_query_needed(root: &Value) -> (needed: bool)
    ensures
        needed == online_query_wanted(root.view()),
{
    let policy_enabled = xray_online_policy_enabled(root);
    let (_, loopback_only) = xray_configured_users(root);
    policy_enabled && !loopback_only
}

/// The users are sorted by e-mail, each once, and each is what the map holds for its e-mail.
pub open spec fn agrees(users: Seq<XrayOnlineUser>, m: Map<Seq<char>, UserView>) -> bool {
    &&& strictly_sorted(user_emails(users))
    &&& user_emails(users).to_set() == m.dom()
    &&& forall|i: int| 0 <= i < users.len() ==> m[#[trigger] users[i].email@] == user_view(users[i])
}

fn upsert_user(users: &mut Vec<XrayOnlineUser>, user: XrayOnlineUser, Ghost(m): Ghost<Map<Seq<char>, UserView>>)
    requires
        agrees(old(users)@, m),
        user_view(user).0 == user.email@,
    ensures
        agrees(final(users)@, m.insert(user.email@, user_view(user))),
{
    let ghost e = user.email@;
    let ghost u = user_view(user);
    let ghost es = user_emails(users@);
    let mut p: usize = 0;
    while p < users.len() && is_less(users[p].email.as_str(), user.email.as_str())
        invariant
            p <= users@.len(),
            es == user_emails(users@),
            e == user.email@,
            forall|k: int| 0 <= k < p ==> text_less(#[trigger] es[k], e),
        decreases users@.len() - p,
    {
        assert(es[p as int] == users@[p as int].email@);
        p = p + 1;
    }
    let ghost m2 = m.insert(e, u);
    if p < users.len() && crate::text::text_eq(users[p].email.as_str(), user.email.as_str()) {
        let ghost old_users = users@;
        users.set(p, user);
        proof {
            assert(user_emails(users@) =~= es);
            assert(m2.dom() =~= m.dom()) by {
                assert(es[p as int] == e);
                assert(es.to_set().contains(e));
            }
            assert forall|i: int| 0 <= i < users@.len() implies m2[#[trigger] users@[i].email@] == user_view(users@[i]) by {
                if i != p {
                    assert(es[i] != es[p as int]) by {
                        if i < p {
                        } else {
                        }
                    }
                    assert(users@[i] == old_users[i]);
                }
            }
        }
    } else {
        let ghost old_users = users@;
        proof {
            if p < users@.len() {
                assert(es[p as int] == users@[p as int].email@);
                crate::text::lemma_text_less_total(es[p as int], e);
                assert(text_less(e, es[p as int]));
            }
        }
        users.insert(p, user);
        proof {
            let r = user_emails(users@);
            assert(r =~= es.insert(p as int, e));
            assert forall|a: int, b: int| 0 <= a < b < r.len() implies text_less(#[trigger] r[a], #[trigger] r[b]) by {
                if b < p {
                    assert(r[a] == es[a] && r[b] == es[b]);
                } else if a < p && b == p {
                } else if a < p && b > p {
                    assert(r[a] == es[a] && r[b] == es[b - 1]);
                } else if a == p {
                    assert(r[b] == es[b - 1]);
                    if b - 1 > p {
                        lemma_text_less_transitive(e, es[p as int], es[b - 1]);
                    }
                } else {
                    assert(r[a] == es[a - 1] && r[b] == es[b - 1]);
                }
            }
            assert(!es.contains(e)) by {
                if es.contains(e) {
                    let k = choose|k: int| 0 <= k < es.len() && es[k] == e;
                    if k < p {
                        lemma_text_less_irreflexive(e);
                    } else if k > p {
                        lemma_text_less_transitive(e, es[p as int], es[k]);
                        lemma_text_less_irreflexive(e);
                    } else {
                        lemma_text_less_irreflexive(e);
                    }
                }
            }
            assert(r.to_set() =~= m2.dom()) by {
                assert forall|x: Seq<char>| r.to_set().contains(x) == m2.dom().contains(x) by {
                    if r.contains(x) {
                        let k = choose|k: int| 0 <= k < r.len() && r[k] == x;
                        if k < p {
                            assert(es[k] == x);
                            assert(es.to_set().contains(x));
                        } else if k > p {
                            assert(es[k - 1] == x);
                            assert(es.to_set().contains(x));
                        }
                    }
                    if m.dom().contains(x) {
                        assert(es.to_set().contains(x));
                        let k = choose|k: int| 0 <= k < es.len() && es[k] == x;
                        if k < p {
                            assert(r[k] == x);
                        } else {
                            assert(r[k + 1] == x);
                        }
                    }
                    if x == e {
                        assert(r[p as int] == x);
                    }
                }
            }
            assert forall|i: int| 0 <= i < users@.len() implies m2[#[trigger] users@[i].email@] == user_view(users@[i]) by {
                if i < p {
                    assert(users@[i] == old_users[i]);
                    assert(es[i] != e) by {
                        lemma_text_less_irreflexive(e);
                    }
                } else if i > p {
                    assert(users@[i] == old_users[i - 1]);
                    assert(r[i] == es[i - 1]);
                    assert(es[i - 1] != e);
                }
            }
        }
    }
}

/// The users of an Xray process as the dashboard lists them, from its configuration, the online
/// users its API reported (used only when they were to be asked, see [`online_query_wanted`];
/// `queried_status` tells whether the API answered), and its Metrics reply: every configured or
/// reported user once, sorted by e-mail, with its traffic from the metrics; and how many are
/// online and how many addresses they have.
pub fn summarize_online_users(
    root: &Value,
    queried: Vec<XrayOnlineUser>,
    queried_status: bool,
    metrics: Option<&Value>,
) -> (summary: XrayOnlineUsersSummary)
    ensures
        summary.policy_enabled == online_policy_enabled(root.view()),
        summary.loopback_only == configured_loopback_only(root.view()),
        summary.status_available == if online_query_wanted(root.view()) {
            queried_status
        } else {
            online_policy_enabled(root.view())
        },
        ({
            let reported = if online_query_wanted(root.view()) {
                user_views(queried@)
            } else {
                Seq::empty()
            };
            let m = merged_users(configured_user_set(root.view()), reported, summary.status_available);
            let mv = match metrics {
                Some(x) => Some(x.view()),
                None => None,
            };
            &&& strictly_sorted(user_emails(summary.users@))
            &&& user_emails(summary.users@).to_set() == m.dom()
            &&& forall|i: int|
                0 <= i < summary.users@.len() ==> user_view(#[trigger] summary.users@[i]) == with_metrics(
                    m[summary.users@[i].email@],
                    mv,
                )
        }),
        summary.user_count == online_count(user_views(summary.users@)),
        summary.address_count == if address_total(user_views(summary.users@)) > usize::MAX {
            usize::MAX as nat
        } else {
            address_total(user_views(summary.users@))
        },
{
    let policy_enabled = xray_online_policy_enabled(root);
    let (configured, loopback_only) = xray_configured_users(root);
    let wanted = policy_enabled && !loopback_only;
    let (reported, status_available) = if wanted {
        (queried, queried_status)
    } else {
        (Vec::new(), policy_enabled)
    };
    let ghost configured_set = configured_user_set(root.view());
    let ghost all_reported = user_views(reported@);
    let ghost cs = texts(configured@);
    // The configured users, each offline.
    let mut users: Vec<XrayOnlineUser> = Vec::new();
    let mut i: usize = 0;
    while i < configured.len()
        invariant
            i <= configured@.len(),
            cs == texts(configured@),
            strictly_sorted(cs),
            users@.len() == i,
            forall|j: int| 0 <= j < i ==> #[trigger] user_view(users@[j]) == offline_user(cs[j], status_available),
            user_emails(users@) == cs.subrange(0, i as int),
        decreases configured@.len() - i,
    {
        let addresses: Vec<XrayOnlineAddress> = Vec::new();
        assert(address_views(addresses@) =~= Seq::<(Seq<char>, i64)>::empty());
        let online = if status_available {
            Some(false)
        } else {
            None
        };
        let user = XrayOnlineUser { email: configured[i].clone(), online, addresses, uplink: 0, downlink: 0 };
        assert(cs[i as int] == configured@[i as int]@);
        users.push(user);
        assert(user_emails(users@) =~= cs.subrange(0, i + 1));
        i = i + 1;
    }
    assert(cs.subrange(0, i as int) =~= cs);
    let ghost m0 = merged_users(configured_set, Seq::<UserView>::empty(), status_available);
    proof {
        assert(user_emails(users@) == cs);
        assert(m0.dom() =~= cs.to_set());
        assert forall|j: int| 0 <= j < users@.len() implies m0[#[trigger] users@[j].email@] == user_view(users@[j]) by {
            assert(user_emails(users@)[j] == cs[j]);
            assert(cs.to_set().contains(cs[j]));
        }
    }
    // The reported users laid over them.
    let count = reported.len();
    let mut rest = reported;
    let mut done: usize = 0;
    assert(all_reported.subrange(0, 0) =~= Seq::<UserView>::empty());
    while rest.len() > 0
        invariant
            done + rest@.len() == count,
            count == all_reported.len(),
            forall|k: int| 0 <= k < rest@.len() ==> #[trigger] user_view(rest@[k]) == all_reported[done + k],
            forall|k: int| 0 <= k < rest@.len() ==> #[trigger] rest@[k].email@ == user_view(rest@[k]).0,
            agrees(users@, merged_users(configured_set, all_reported.subrange(0, done as int), status_available)),
        decreases rest.len(),
    {
        let user = rest.remove(0);
        assert(user_view(user) == all_reported[done as int]);
        let ghost before = merged_users(configured_set, all_reported.subrange(0, done as int), status_available);
        upsert_user(&mut users, user, Ghost(before));
        proof {
            let next = all_reported.subrange(0, done + 1);
            assert(next.drop_last() =~= all_reported.subrange(0, done as int));
            assert(next.last() == user_view(user));
        }
        done = done + 1;
    }
    assert(all_reported.subrange(0, done as int) =~= all_reported);
    let ghost m = merged_users(configured_set, all_reported, status_available);
    let ghost mv = match metrics {
        Some(x) => Some(x.view()),
        None => None,
    };
    // Their traffic from the metrics, and the counts.
    let mut listed: Vec<XrayOnlineUser> = Vec::new();
    let mut user_count: usize = 0;
    let mut address_count: usize = 0;
    let ghost merged_list = users@;
    let total = users.len();
    let mut rest = users;
    while rest.len() > 0
        invariant
            listed@.len() + rest@.len() == merged_list.len(),
            merged_list.len() == total,
            mv == match metrics {
                Some(x) => Some(x.view()),
                None => None,
            },
            forall|k: int| 0 <= k < rest@.len() ==> #[trigger] rest@[k] == merged_list[listed@.len() + k],
            agrees(merged_list, m),
            forall|k: int| 0 <= k < listed@.len() ==> #[trigger] listed@[k].email@ == merged_list[k].email@,
            forall|k: int|
                0 <= k < listed@.len() ==> #[trigger] user_view(listed@[k]) == with_metrics(
                    user_view(merged_list[k]),
                    mv,
                ),
            user_count == online_count(user_views(listed@)),
            user_count <= listed@.len(),
            address_count == if address_total(user_views(listed@)) > usize::MAX {
                usize::MAX as nat
            } else {
                address_total(user_views(listed@))
            },
        decreases rest.len(),
    {
        let user = rest.remove(0);
        let ghost k = listed@.len();
        assert(user == merged_list[k as int]);
        let traffic = xray_user_metrics(metrics, user.email.as_str());
        let XrayOnlineUser { email, online, addresses, uplink, downlink } = user;
        let (uplink, downlink) = match traffic {
            Some((up, down)) => (up, down),
            None => (uplink, downlink),
        };
        let updated = XrayOnlineUser { email, online, addresses, uplink, downlink };
        if updated.online == Some(true) {
            user_count = user_count + 1;
        }
        address_count = address_count.saturating_add(updated.addresses.len());
        let ghost before = user_views(listed@);
        listed.push(updated);
        proof {
            let after = user_views(listed@);
            assert(after =~= before.push(user_view(updated)));
            assert(after.drop_last() =~= before);
        }
    }
    proof {
        assert(user_emails(listed@) =~= user_emails(merged_list));
        assert forall|k: int| 0 <= k < listed@.len() implies user_view(#[trigger] listed@[k]) == with_metrics(
            m[listed@[k].email@],
            mv,
        ) by {
            assert(listed@[k].email@ == merged_list[k].email@);
            assert(m[merged_list[k].email@] == user_view(merged_list[k]));
        }
    }
    XrayOnlineUsersSummary {
        policy_enabled,
        status_available,
        loopback_only,
        user_count,
        address_count,
        users: listed,
    }
}

} // verus!
