use vstd::prelude::*;

use crate::auth::ExecutionContext;
use crate::http::branches::{strip_prefix, strip_prefix_chars};
use crate::text::{
    chars_of, chars_starts_with, int_decimal, push_i64_decimal, push_str, starts_with, str_equal, string_of,
    trim_char, trim_matches_char,
};
use crate::time::now_secs;

verus! {

/// Who is present on a channel: their key, user, role, state (JSON text) and when they
/// last announced it (seconds since the epoch).
#[derive(Debug)]
pub struct PresenceEntry {
    pub key: String,
    pub user_id: Option<i64>,
    pub role: String,
    pub state: String,
    pub updated_at: u64,
}

/// The abstract content of a presence entry.
pub struct PresenceView {
    pub key: Seq<char>,
    pub user_id: Option<i64>,
    pub role: Seq<char>,
    pub state: Seq<char>,
    pub updated_at: u64,
}

impl View for PresenceEntry {
    type V = PresenceView;

    open spec fn view(&self) -> PresenceView {
        PresenceView {
            key: self.key@,
            user_id: self.user_id,
            role: self.role@,
            state: self.state@,
            updated_at: self.updated_at,
        }
    }
}

impl PresenceEntry {
    /// A copy of the entry.
    pub fn copy(&self) -> (r: Self)
        ensures
            r@ == self@,
    {
        PresenceEntry {
            key: String::from_str(self.key.as_str()),
            user_id: self.user_id,
            role: String::from_str(self.role.as_str()),
            state: String::from_str(self.state.as_str()),
            updated_at: self.updated_at,
        }
    }
}

/// The entry announced for `key` by a user with `uid` and `role` (`anon` without one).
pub open spec fn presence_entry(
    key: Seq<char>,
    uid: Option<i64>,
    role: Option<Seq<char>>,
    state: Seq<char>,
    now: u64,
) -> PresenceView {
    PresenceView {
        key,
        user_id: uid,
        role: match role {
            Some(r) => r,
            None => "anon"@,
        },
        state,
        updated_at: now,
    }
}

/// The role of an execution context as text, if it has one.
pub open spec fn role_of(ctx: ExecutionContext) -> Option<Seq<char>> {
    match ctx.role {
        Some(r) => Some(r@),
        None => None,
    }
}

/// The position of the entry for `key` on `channel`, or the number of entries.
pub open spec fn find_slot(s: Seq<(Seq<char>, PresenceView)>, channel: Seq<char>, key: Seq<char>, i: int) -> int
    decreases s.len() - i,
{
    if i < 0 || i >= s.len() {
        s.len() as int
    } else if s[i].0 == channel && s[i].1.key == key {
        i
    } else {
        find_slot(s, channel, key, i + 1)
    }
}

/// The entries after announcing `e` on `channel`: it replaces the entry with its key there,
/// or is added.
pub open spec fn track_effect(s: Seq<(Seq<char>, PresenceView)>, channel: Seq<char>, e: PresenceView) -> Seq<
    (Seq<char>, PresenceView),
> {
    let i = find_slot(s, channel, e.key, 0);
    if i < s.len() {
        s.update(i, (channel, e))
    } else {
        s.push((channel, e))
    }
}

/// The entries after withdrawing `key` from `channel`.
pub open spec fn untrack_effect(s: Seq<(Seq<char>, PresenceView)>, channel: Seq<char>, key: Seq<char>) -> Seq<
    (Seq<char>, PresenceView),
> {
    let i = find_slot(s, channel, key, 0);
    if i < s.len() {
        s.remove(i)
    } else {
        s
    }
}

/// Whether `key` is present on `channel`.
pub open spec fn is_present(s: Seq<(Seq<char>, PresenceView)>, channel: Seq<char>, key: Seq<char>) -> bool {
    exists|i: int| 0 <= i < s.len() && (#[trigger] s[i]).0 == channel && s[i].1.key == key
}

/// Whether an entry is on `channel`.
pub open spec fn on_channel(channel: Seq<char>) -> spec_fn((Seq<char>, PresenceView)) -> bool {
    |p: (Seq<char>, PresenceView)| p.0 == channel
}

/// The entry itself, without its channel.
pub open spec fn entry_part() -> spec_fn((Seq<char>, PresenceView)) -> PresenceView {
    |p: (Seq<char>, PresenceView)| p.1
}

/// The entries on `channel`, in the order they were first announced.
pub open spec fn channel_entries(s: Seq<(Seq<char>, PresenceView)>, channel: Seq<char>) -> Seq<PresenceView> {
    s.filter(on_channel(channel)).map_values(entry_part())
}

/// No key appears twice on a channel.
pub open spec fn slots_distinct(s: Seq<(Seq<char>, PresenceView)>) -> bool {
    forall|i: int, j: int|
        0 <= i < s.len() && 0 <= j < s.len() && i != j ==> !((#[trigger] s[i]).0 == (#[trigger] s[j]).0 && s[i].1.key
            == s[j].1.key)
}

proof fn lemma_find_slot(s: Seq<(Seq<char>, PresenceView)>, channel: Seq<char>, key: Seq<char>, i: int)
    requires
        0 <= i <= s.len(),
    ensures
        i <= find_slot(s, channel, key, i) <= s.len(),
        find_slot(s, channel, key, i) < s.len() ==> s[find_slot(s, channel, key, i)].0 == channel && s[find_slot(
            s,
            channel,
            key,
            i,
        )].1.key == key,
        find_slot(s, channel, key, i) == s.len() ==> forall|j: int|
            i <= j < s.len() ==> !((#[trigger] s[j]).0 == channel && s[j].1.key == key),
    decreases s.len() - i,
{
    if i < s.len() && !(s[i].0 == channel && s[i].1.key == key) {
        lemma_find_slot(s, channel, key, i + 1);
    }
}

/// Presence on realtime channels: who is on each channel, one entry per key.
pub struct RealtimeChannelManager {
    presence: Vec<(String, PresenceEntry)>,
}

impl RealtimeChannelManager {
    #[verifier::type_invariant]
    spec fn inv(self) -> bool {
        slots_distinct(self.present())
    }

    /// The entries with their channels, in the order first announced.
    pub closed spec fn present(&self) -> Seq<(Seq<char>, PresenceView)> {
        Seq::new(self.presence@.len(), |i: int| (self.presence@[i].0@, self.presence@[i].1@))
    }

    /// Nobody present anywhere.
    pub fn new() -> (m: Self)
        ensures
            m.present() == Seq::<(Seq<char>, PresenceView)>::empty(),
    {
        let m = RealtimeChannelManager { presence: Vec::new() };
        assert(m.present() =~= Seq::<(Seq<char>, PresenceView)>::empty());
        m
    }

    fn slot(&self, channel: &str, key: &str) -> (r: usize)
        ensures
            r == find_slot(self.present(), channel@, key@, 0),
    {
        let ghost s = self.present();
        let mut i: usize = 0;
        while i < self.presence.len()
            invariant
                i <= self.presence@.len(),
                s == self.present(),
                find_slot(s, channel@, key@, 0) == find_slot(s, channel@, key@, i as int),
            decreases self.presence@.len() - i,
        {
            assert(s[i as int] == (self.presence@[i as int].0@, self.presence@[i as int].1@));
            if str_equal(self.presence[i].0.as_str(), channel) && str_equal(self.presence[i].1.key.as_str(), key) {
                return i;
            }
            i = i + 1;
        }
        i
    }

    /// Announces `key` on `channel` with `state` at time `now` for the user of `ctx`,
    /// replacing that key's earlier entry on the channel; returns the new entry.
    pub fn track_presence_at(
        &mut self,
        channel: &str,
        key: &str,
        state: &str,
        ctx: &ExecutionContext,
        now: u64,
    ) -> (r: PresenceEntry)
        ensures
            r@ == presence_entry(key@, ctx.user_id, role_of(*ctx), state@, now),
            final(self).present() == track_effect(old(self).present(), channel@, r@),
    {
        proof {
            use_type_invariant(&*self);
        }
        let role = match &ctx.role {
            Some(r) => String::from_str(r.as_str()),
            None => {
                proof {
                    reveal_strlit("anon");
                }
                String::from_str("anon")
            },
        };
        let entry = PresenceEntry {
            key: String::from_str(key),
            user_id: ctx.user_id,
            role,
            state: String::from_str(state),
            updated_at: now,
        };
        let out = entry.copy();
        let ghost s = self.present();
        let i = self.slot(channel, key);
        proof {
            lemma_find_slot(s, channel@, key@, 0);
        }
        let mut v: Vec<(String, PresenceEntry)> = Vec::new();
        std::mem::swap(&mut v, &mut self.presence);
        let ghost before = v@;
        if i < v.len() {
            v.set(i, (String::from_str(channel), entry));
        } else {
            v.push((String::from_str(channel), entry));
        }
        let ghost t = Seq::new(v@.len(), |j: int| (v@[j].0@, v@[j].1@));
        proof {
            if i < s.len() {
                assert(t =~= s.update(i as int, (channel@, out@)));
            } else {
                assert(t =~= s.push((channel@, out@)));
            }
            assert forall|a: int, b: int|
                0 <= a < t.len() && 0 <= b < t.len() && a != b implies !((#[trigger] t[a]).0 == (#[trigger] t[b]).0
                && t[a].1.key == t[b].1.key) by {
                if a != i && b != i {
                    assert(t[a] == s[a] && t[b] == s[b]);
                } else if a == i && b < s.len() {
                    assert(t[b] == s[b]);
                } else if b == i && a < s.len() {
                    assert(t[a] == s[a]);
                }
            }
        }
        self.presence = v;
        assert(self.present() =~= t);
        out
    }

    /// Announces `key` on `channel` with `state`, stamped with the current time.
    pub fn track_presence(&mut self, channel: &str, key: &str, state: &str, ctx: &ExecutionContext) -> (r:
        PresenceEntry)
        ensures
            exists|now: u64|
                r@ == presence_entry(key@, ctx.user_id, role_of(*ctx), state@, now) && final(self).present()
                    == track_effect(old(self).present(), channel@, r@),
    {
        let now = now_secs();
        self.track_presence_at(channel, key, state, ctx, now)
    }

    /// The entries on `channel`, in the order first announced.
    pub fn get_presence(&self, channel: &str) -> (r: Vec<PresenceEntry>)
        ensures
            Seq::new(r@.len(), |i: int| r@[i]@) == channel_entries(self.present(), channel@),
    {
        let ghost s = self.present();
        let ghost f = on_channel(channel@);
        let mut out: Vec<PresenceEntry> = Vec::new();
        let mut i: usize = 0;
        assert(s.take(0).filter(f) =~= Seq::<(Seq<char>, PresenceView)>::empty()) by {
            reveal(Seq::filter);
        }
        while i < self.presence.len()
            invariant
                i <= self.presence@.len(),
                s == self.present(),
                f == on_channel(channel@),
                Seq::new(out@.len(), |j: int| out@[j]@) == s.take(i as int).filter(f).map_values(entry_part()),
            decreases self.presence@.len() - i,
        {
            let ghost prev = Seq::new(out@.len(), |j: int| out@[j]@);
            assert(s.take(i + 1).drop_last() =~= s.take(i as int));
            assert(s.take(i + 1).last() == s[i as int]);
            assert(s.take(i + 1).filter(f) == if f(s[i as int]) {
                s.take(i as int).filter(f).push(s[i as int])
            } else {
                s.take(i as int).filter(f)
            }) by {
                reveal(Seq::filter);
            }
            assert(s[i as int] == (self.presence@[i as int].0@, self.presence@[i as int].1@));
            if str_equal(self.presence[i].0.as_str(), channel) {
                out.push(self.presence[i].1.copy());
                assert(Seq::new(out@.len(), |j: int| out@[j]@) =~= prev.push(s[i as int].1));
                assert(s.take(i as int).filter(f).push(s[i as int]).map_values(entry_part()) =~= s.take(
                    i as int,
                ).filter(f).map_values(entry_part()).push(s[i as int].1));
            }
            i = i + 1;
        }
        assert(s.take(s.len() as int) =~= s);
        out
    }

    /// Withdraws `key` from `channel`; whether it was present.
    pub fn untrack_presence(&mut self, channel: &str, key: &str) -> (r: bool)
        ensures
            r == is_present(old(self).present(), channel@, key@),
            final(self).present() == untrack_effect(old(self).present(), channel@, key@),
    {
        proof {
            use_type_invariant(&*self);
        }
        let ghost s = self.present();
        let i = self.slot(channel, key);
        proof {
            lemma_find_slot(s, channel@, key@, 0);
        }
        if i < self.presence.len() {
            let mut v: Vec<(String, PresenceEntry)> = Vec::new();
            std::mem::swap(&mut v, &mut self.presence);
            let _ = v.remove(i);
            let ghost t = Seq::new(v@.len(), |j: int| (v@[j].0@, v@[j].1@));
            proof {
                assert(t =~= s.remove(i as int));
                assert forall|a: int, b: int|
                    0 <= a < t.len() && 0 <= b < t.len() && a != b implies !((#[trigger] t[a]).0 == (
                    #[trigger] t[b]).0 && t[a].1.key == t[b].1.key) by {
                    let a2 = if a < i { a } else { a + 1 };
                    let b2 = if b < i { b } else { b + 1 };
                    assert(t[a] == s[a2] && t[b] == s[b2]);
                }
            }
            self.presence = v;
            assert(self.present() =~= t);
            true
        } else {
            false
        }
    }
}


/// The key announced when the request names none: `user_<id>` for a signed-in user,
/// `anon` otherwise.
pub open spec fn spec_default_presence_key(uid: Option<i64>) -> Seq<char> {
    match uid {
        Some(id) => "user_"@ + int_decimal(id as int),
        None => "anon"@,
    }
}

/// The key announced when the request names none.
pub fn default_presence_key(user_id: Option<i64>) -> (r: String)
    ensures
        r@ == spec_default_presence_key(user_id),
{
    match user_id {
        Some(id) => {
            let mut v: Vec<char> = Vec::new();
            push_str(&mut v, "user_");
            push_i64_decimal(&mut v, id);
            string_of(v.as_slice())
        },
        None => {
            proof {
                reveal_strlit("anon");
            }
            String::from_str("anon")
        },
    }
}

/// What a realtime request asks for.
#[derive(Debug)]
pub enum RealtimeRoute {
    /// Publish a message on the channel.
    Broadcast(String),
    /// List who is present on the channel.
    ListPresence(String),
    /// Announce presence on the channel.
    TrackPresence(String),
    /// Withdraw presence from the channel.
    UntrackPresence(String),
    /// A presence request with another method (405).
    MethodNotAllowed,
    /// Any other path (404).
    NotFound,
}

/// The abstract content of a realtime route.
pub enum RealtimeRouteView {
    Broadcast(Seq<char>),
    ListPresence(Seq<char>),
    TrackPresence(Seq<char>),
    UntrackPresence(Seq<char>),
    MethodNotAllowed,
    NotFound,
}

impl View for RealtimeRoute {
    type V = RealtimeRouteView;

    open spec fn view(&self) -> RealtimeRouteView {
        match self {
            RealtimeRoute::Broadcast(c) => RealtimeRouteView::Broadcast(c@),
            RealtimeRoute::ListPresence(c) => RealtimeRouteView::ListPresence(c@),
            RealtimeRoute::TrackPresence(c) => RealtimeRouteView::TrackPresence(c@),
            RealtimeRoute::UntrackPresence(c) => RealtimeRouteView::UntrackPresence(c@),
            RealtimeRoute::MethodNotAllowed => RealtimeRouteView::MethodNotAllowed,
            RealtimeRoute::NotFound => RealtimeRouteView::NotFound,
        }
    }
}

/// The path below the realtime prefix (the whole path when it lacks the prefix).
pub open spec fn realtime_subpath(path: Seq<char>) -> Seq<char> {
    match strip_prefix(path, "/v1/realtime/v1"@) {
        Some(s) => s,
        None => path,
    }
}

/// `POST .../broadcast/<channel>` publishes; `.../presence/<channel>` lists (GET), announces
/// (POST) or withdraws (DELETE) presence, other methods being refused; anything else is
/// not found. The channel is the rest of the path without surrounding slashes.
pub open spec fn spec_realtime_route(method: Seq<char>, path: Seq<char>) -> RealtimeRouteView {
    let sub = realtime_subpath(path);
    if strip_prefix(sub, "/broadcast/"@) is Some && method == "POST"@ {
        RealtimeRouteView::Broadcast(trim_char(strip_prefix(sub, "/broadcast/"@).unwrap(), '/'))
    } else if strip_prefix(sub, "/presence/"@) is Some {
        let channel = trim_char(strip_prefix(sub, "/presence/"@).unwrap(), '/');
        if method == "GET"@ {
            RealtimeRouteView::ListPresence(channel)
        } else if method == "POST"@ {
            RealtimeRouteView::TrackPresence(channel)
        } else if method == "DELETE"@ {
            RealtimeRouteView::UntrackPresence(channel)
        } else {
            RealtimeRouteView::MethodNotAllowed
        }
    } else {
        RealtimeRouteView::NotFound
    }
}

/// What a realtime request with `method` on `path` asks for.
pub fn realtime_route(method: &str, path: &str) -> (r: RealtimeRoute)
    ensures
        r@ == spec_realtime_route(method@, path@),
{
    let pc = chars_of(path);
    let sub = match strip_prefix_chars(pc.as_slice(), "/v1/realtime/v1") {
        Some(s) => s,
        None => pc,
    };
    if str_equal(method, "POST") {
        if let Some(rest) = strip_prefix_chars(sub.as_slice(), "/broadcast/") {
            return RealtimeRoute::Broadcast(string_of(trim_matches_char(rest.as_slice(), '/').as_slice()));
        }
    }
    match strip_prefix_chars(sub.as_slice(), "/presence/") {
        Some(rest) => {
            let channel = string_of(trim_matches_char(rest.as_slice(), '/').as_slice());
            if str_equal(method, "GET") {
                RealtimeRoute::ListPresence(channel)
            } else if str_equal(method, "POST") {
                RealtimeRoute::TrackPresence(channel)
            } else if str_equal(method, "DELETE") {
                RealtimeRoute::UntrackPresence(channel)
            } else {
                RealtimeRoute::MethodNotAllowed
            }
        },
        None => RealtimeRoute::NotFound,
    }
}

/// Announcing keeps one entry per key on each channel.
pub proof fn lemma_track_distinct(s: Seq<(Seq<char>, PresenceView)>, channel: Seq<char>, e: PresenceView)
    requires
        slots_distinct(s),
    ensures
        slots_distinct(track_effect(s, channel, e)),
{
    lemma_find_slot(s, channel, e.key, 0);
    let i = find_slot(s, channel, e.key, 0);
    let t = track_effect(s, channel, e);
    assert forall|a: int, b: int|
        0 <= a < t.len() && 0 <= b < t.len() && a != b implies !((#[trigger] t[a]).0 == (#[trigger] t[b]).0 && t[a].1.key
        == t[b].1.key) by {
        if a != i && b != i {
            assert(t[a] == s[a] && t[b] == s[b]);
        } else if a == i && b < s.len() {
            assert(t[b] == s[b]);
        } else if b == i && a < s.len() {
            assert(t[a] == s[a]);
        }
    }
}

/// After `e` is announced on a channel, listing that channel gives `e`, and it is the
/// only entry there with its key.
pub proof fn lemma_track_then_list(s: Seq<(Seq<char>, PresenceView)>, channel: Seq<char>, e: PresenceView)
    requires
        slots_distinct(s),
    ensures
        channel_entries(track_effect(s, channel, e), channel).contains(e),
        forall|j: int|
            0 <= j < channel_entries(track_effect(s, channel, e), channel).len() && (#[trigger] channel_entries(
                track_effect(s, channel, e),
                channel,
            )[j]).key == e.key ==> channel_entries(track_effect(s, channel, e), channel)[j] == e,
{
    lemma_find_slot(s, channel, e.key, 0);
    lemma_track_distinct(s, channel, e);
    let i = find_slot(s, channel, e.key, 0);
    let t = track_effect(s, channel, e);
    let f = on_channel(channel);
    let m = if i < s.len() { i } else { s.len() as int };
    assert(t[m] == (channel, e));
    t.lemma_filter_contains(f, m);
    let fl = t.filter(f);
    assert(channel_entries(t, channel) =~= fl.map_values(entry_part()));
    assert(channel_entries(t, channel).len() == fl.len());
    let j0 = choose|j: int| 0 <= j < fl.len() && fl[j] == (channel, e);
    assert(channel_entries(t, channel)[j0] == e);
    assert forall|j: int|
        0 <= j < channel_entries(t, channel).len() && (#[trigger] channel_entries(t, channel)[j]).key == e.key implies channel_entries(
        t,
        channel,
    )[j] == e by {
        t.lemma_filter_pred(f, j);
        assert(fl.contains(fl[j]));
        t.lemma_filter_contains_rev(f, fl[j]);
        let m2 = choose|m2: int| 0 <= m2 < t.len() && t[m2] == fl[j];
        assert(t[m2].0 == channel && t[m2].1.key == e.key);
        if m2 != m {
            assert(!(t[m2].0 == t[m].0 && t[m2].1.key == t[m].1.key));
        }
    }
}

/// After a key is withdrawn from a channel, it is no longer present there.
pub proof fn lemma_untrack_then_absent(s: Seq<(Seq<char>, PresenceView)>, channel: Seq<char>, key: Seq<char>)
    requires
        slots_distinct(s),
    ensures
        !is_present(untrack_effect(s, channel, key), channel, key),
        forall|j: int|
            0 <= j < channel_entries(untrack_effect(s, channel, key), channel).len() ==> (#[trigger] channel_entries(
                untrack_effect(s, channel, key),
                channel,
            )[j]).key != key,
{
    lemma_find_slot(s, channel, key, 0);
    let i = find_slot(s, channel, key, 0);
    let u = untrack_effect(s, channel, key);
    let f = on_channel(channel);
    assert(!is_present(u, channel, key)) by {
        if is_present(u, channel, key) {
            let m = choose|m: int| 0 <= m < u.len() && (#[trigger] u[m]).0 == channel && u[m].1.key == key;
            if i < s.len() {
                let m2 = if m < i { m } else { m + 1 };
                assert(u[m] == s[m2]);
                assert(!(s[m2].0 == s[i].0 && s[m2].1.key == s[i].1.key));
            } else {
                assert(u[m] == s[m]);
            }
        }
    }
    assert forall|j: int| 0 <= j < channel_entries(u, channel).len() implies (#[trigger] channel_entries(u, channel)[j]).key
        != key by {
        let fl = u.filter(f);
        assert(channel_entries(u, channel) =~= fl.map_values(entry_part()));
        u.lemma_filter_pred(f, j);
        assert(fl.contains(fl[j]));
        u.lemma_filter_contains_rev(f, fl[j]);
        let m = choose|m: int| 0 <= m < u.len() && u[m] == fl[j];
        assert(u[m].0 == channel);
        if u[m].1.key == key {
            assert(is_present(u, channel, key));
        }
    }
}

/// Announcing on one channel leaves every other channel's listing as it was.
pub proof fn lemma_track_other_channel(
    s: Seq<(Seq<char>, PresenceView)>,
    channel: Seq<char>,
    e: PresenceView,
    other: Seq<char>,
)
    requires
        other != channel,
    ensures
        channel_entries(track_effect(s, channel, e), other) == channel_entries(s, other),
{
    lemma_find_slot(s, channel, e.key, 0);
    let i = find_slot(s, channel, e.key, 0);
    let f = on_channel(other);
    let none = Seq::<(Seq<char>, PresenceView)>::empty();
    assert(seq![(channel, e)].filter(f) =~= none) by {
        reveal(Seq::filter);
        assert(seq![(channel, e)].drop_last() =~= none);
        assert(none.filter(f) =~= none);
    }
    if i < s.len() {
        assert(seq![s[i]].filter(f) =~= none) by {
            reveal(Seq::filter);
            assert(seq![s[i]].drop_last() =~= none);
            assert(none.filter(f) =~= none);
        }
        let a = s.take(i);
        let b = s.skip(i + 1);
        assert(s =~= a + seq![s[i]] + b);
        assert(s.update(i, (channel, e)) =~= a + seq![(channel, e)] + b);
        Seq::filter_distributes_over_add(a + seq![s[i]], b, f);
        Seq::filter_distributes_over_add(a, seq![s[i]], f);
        Seq::filter_distributes_over_add(a + seq![(channel, e)], b, f);
        Seq::filter_distributes_over_add(a, seq![(channel, e)], f);
        assert(s.update(i, (channel, e)).filter(f) =~= s.filter(f));
    } else {
        Seq::filter_distributes_over_add(s, seq![(channel, e)], f);
        assert(s.push((channel, e)) =~= s + seq![(channel, e)]);
        assert(s.push((channel, e)).filter(f) =~= s.filter(f));
    }
}

} // verus!
