use vstd::prelude::*;

use crate::text::str_equal;

verus! {

/// Limits of a rate limiter: requests allowed per window.
#[derive(Debug, Clone)]
pub struct RateLimitConfig {
    pub max_requests: usize,
    pub window_secs: u64,
}

impl Default for RateLimitConfig {
    fn default() -> (c: Self)
        ensures
            c.max_requests == 100,
            c.window_secs == 60,
    {
        RateLimitConfig { max_requests: 100, window_secs: 60 }
    }
}

/// The timestamps recorded for a key, by key.
pub open spec fn records_map(s: Seq<(String, Vec<u64>)>) -> Map<Seq<char>, Seq<u64>> {
    Map::new(
        |k: Seq<char>| exists|i: int| 0 <= i < s.len() && s[i].0@ == k,
        |k: Seq<char>| s[choose|i: int| 0 <= i < s.len() && s[i].0@ == k].1@,
    )
}

/// Whether no two records share a key.
pub open spec fn distinct_keys(s: Seq<(String, Vec<u64>)>) -> bool {
    forall|i: int, j: int| 0 <= i < s.len() && 0 <= j < s.len() && i != j ==> s[i].0@ != s[j].0@
}

/// A sliding-window rate limiter: request timestamps per key.
#[derive(Debug)]
pub struct RateLimiter {
    records: Vec<(String, Vec<u64>)>,
}

/// The timestamps after `cutoff`, in order.
pub open spec fn after_cutoff(ts: Seq<u64>, cutoff: u64) -> Seq<u64> {
    ts.filter(|t: u64| t > cutoff)
}

/// The seconds to wait before retrying: until the oldest kept request leaves the window,
/// at least one.
pub open spec fn retry_after(kept: Seq<u64>, now: u64, window: u64) -> u64 {
    let oldest = if kept.len() > 0 {
        kept[0]
    } else {
        now
    };
    let end = if oldest + window > u64::MAX {
        u64::MAX
    } else {
        (oldest + window) as u64
    };
    let wait = if end > now {
        (end - now) as u64
    } else {
        0u64
    };
    if wait < 1 {
        1u64
    } else {
        wait
    }
}

/// Timestamps after this one are within the hour before `now`.
pub open spec fn hour_cutoff(now: u64) -> u64 {
    if now >= 3600 {
        (now - 3600) as u64
    } else {
        0u64
    }
}

/// Whether `r` lists, once each, exactly the keys with requests in the hour before `now`,
/// with their numbers of such requests.
pub open spec fn active_listing(records: Map<Seq<char>, Seq<u64>>, now: u64, r: Seq<(String, usize)>) -> bool {
    &&& forall|i: int|
        0 <= i < r.len() ==> records.contains_key(#[trigger] r[i].0@) && r[i].1 == after_cutoff(
            records[r[i].0@],
            hour_cutoff(now),
        ).len() && r[i].1 > 0
    &&& forall|k: Seq<char>|
        records.contains_key(k) && after_cutoff(records[k], hour_cutoff(now)).len() > 0 ==> exists|i: int|
            0 <= i < r.len() && #[trigger] r[i].0@ == k
    &&& forall|i: int, j: int| 0 <= i < r.len() && 0 <= j < r.len() && i != j ==> r[i].0@ != r[j].0@
}

fn count_after(ts: &Vec<u64>, cutoff: u64) -> (c: usize)
    ensures
        c == after_cutoff(ts@, cutoff).len(),
{
    let mut c: usize = 0;
    let mut i: usize = 0;
    while i < ts.len()
        invariant
            i <= ts@.len(),
            c == after_cutoff(ts@.subrange(0, i as int), cutoff).len(),
            c <= i,
        decreases ts@.len() - i,
    {
        let t = ts[i];
        proof {
            assert(ts@.subrange(0, i as int).push(t) =~= ts@.subrange(0, i + 1));
            ts@.subrange(0, i as int).lemma_filter_push(t, |t: u64| t > cutoff);
        }
        if t > cutoff {
            c = c + 1;
        }
        i = i + 1;
    }
    assert(ts@.subrange(0, ts@.len() as int) =~= ts@);
    c
}

/// The outcome of a rate check at `now`: timestamps at or before `now - window` are
/// dropped; with `max` left the request is refused with the wait in seconds and the
/// remaining timestamps kept, otherwise it is allowed and `now` recorded.
pub open spec fn rate_check(
    before: Map<Seq<char>, Seq<u64>>,
    key: Seq<char>,
    max: usize,
    window: u64,
    now: u64,
    r: Result<(), u64>,
    after: Map<Seq<char>, Seq<u64>>,
) -> bool {
    let old_ts = if before.contains_key(key) {
        before[key]
    } else {
        Seq::<u64>::empty()
    };
    let cutoff = if now >= window {
        (now - window) as u64
    } else {
        0u64
    };
    let kept = after_cutoff(old_ts, cutoff);
    &&& kept.len() >= max ==> r == Err::<(), u64>(retry_after(kept, now, window)) && after
        == before.insert(key, kept)
    &&& kept.len() < max ==> r is Ok && after == before.insert(key, kept.push(now))
}

proof fn lemma_map_at(s: Seq<(String, Vec<u64>)>, i: int)
    requires
        distinct_keys(s),
        0 <= i < s.len(),
    ensures
        records_map(s).contains_key(s[i].0@),
        records_map(s)[s[i].0@] == s[i].1@,
{
    let k = s[i].0@;
    assert(exists|j: int| 0 <= j < s.len() && s[j].0@ == k);
    let j = choose|j: int| 0 <= j < s.len() && s[j].0@ == k;
    assert(j == i);
}

fn position(records: &Vec<(String, Vec<u64>)>, key: &str) -> (r: Option<usize>)
    ensures
        r matches Some(i) ==> i < records@.len() && records@[i as int].0@ == key@,
        r is None ==> forall|i: int| 0 <= i < records@.len() ==> records@[i].0@ != key@,
{
    let mut i: usize = 0;
    while i < records.len()
        invariant
            i <= records@.len(),
            forall|j: int| 0 <= j < i ==> records@[j].0@ != key@,
        decreases records@.len() - i,
    {
        if str_equal(records[i].0.as_str(), key) {
            return Some(i);
        }
        i = i + 1;
    }
    None
}

impl RateLimiter {
    /// The records hold each key once.
    #[verifier::type_invariant]
    spec fn keys_distinct(&self) -> bool {
        distinct_keys(self.records@)
    }

    /// The request timestamps recorded per key.
    pub closed spec fn records(&self) -> Map<Seq<char>, Seq<u64>> {
        records_map(self.records@)
    }

    /// A limiter with no records.
    pub fn new() -> (r: Self)
        ensures
            r.records() == Map::<Seq<char>, Seq<u64>>::empty(),
    {
        let r = RateLimiter { records: Vec::new() };
        assert(r.records() =~= Map::<Seq<char>, Seq<u64>>::empty());
        r
    }

    /// Checks a request for `key` at time `now` (seconds): timestamps outside the window
    /// are dropped; with `max_requests` left the request is refused with the seconds to
    /// wait, otherwise it is recorded and allowed.
    pub fn check_rate_limit_at(&mut self, key: &str, max_requests: usize, window_secs: u64, now: u64) -> (r: Result<(), u64>)
        ensures
            rate_check(old(self).records(), key@, max_requests, window_secs, now, r, final(self).records()),
    {
        proof {
            use_type_invariant(&*self);
        }
        let mut recs: Vec<(String, Vec<u64>)> = Vec::new();
        std::mem::swap(&mut recs, &mut self.records);
        let ghost old_recs = recs@;
        assert(records_map(old_recs) == old(self).records());
        let cutoff = now.saturating_sub(window_secs);
        let idx = match position(&recs, key) {
            Some(i) => i,
            None => {
                recs.push((key.to_string(), Vec::new()));
                proof {
                    assert(distinct_keys(recs@));
                }
                recs.len() - 1
            },
        };
        let ghost old_map = old(self).records();
        let ghost old_ts = if old_map.contains_key(key@) {
            old_map[key@]
        } else {
            Seq::<u64>::empty()
        };
        proof {
            lemma_map_at(recs@, idx as int);
            if old_map.contains_key(key@) {
                let j = choose|j: int| 0 <= j < old_recs.len() && old_recs[j].0@ == key@;
                lemma_map_at(old_recs, j);
            }
        }
        assert(recs@[idx as int].1@ == old_ts);
        assert(forall|j: int| 0 <= j < old_recs.len() ==> recs@[j] == old_recs[j]);
        assert(recs@.len() == old_recs.len() || (recs@.len() == old_recs.len() + 1 && idx
            == old_recs.len()));
        assert(recs@[idx as int].0@ == key@);
        let mut kept: Vec<u64> = Vec::new();
        let mut i: usize = 0;
        let n = recs[idx].1.len();
        while i < n
            invariant
                idx < recs@.len(),
                n == recs@[idx as int].1@.len(),
                i <= n,
                kept@ == after_cutoff(recs@[idx as int].1@.subrange(0, i as int), cutoff),
            decreases n - i,
        {
            let t = recs[idx].1[i];
            proof {
                let ts = recs@[idx as int].1@;
                assert(ts.subrange(0, i + 1).drop_last() =~= ts.subrange(0, i as int));
                ts.subrange(0, i as int).lemma_filter_push(t, |t: u64| t > cutoff);
                assert(ts.subrange(0, i as int).push(t) =~= ts.subrange(0, i + 1));
            }
            if t > cutoff {
                kept.push(t);
            }
            i = i + 1;
        }
        assert(recs@[idx as int].1@.subrange(0, n as int) =~= recs@[idx as int].1@);
        let result = if kept.len() >= max_requests {
            let oldest = if kept.len() > 0 {
                kept[0]
            } else {
                now
            };
            let wait = oldest.saturating_add(window_secs).saturating_sub(now);
            Err(if wait < 1 {
                1
            } else {
                wait
            })
        } else {
            kept.push(now);
            Ok(())
        };
        let ghost before = recs@;
        let name = recs[idx].0.clone();
        recs.set(idx, (name, kept));
        proof {
            assert(distinct_keys(recs@));
            assert forall|k: Seq<char>|
                #![trigger records_map(recs@).contains_key(k)]
                records_map(recs@).contains_key(k) == (k == key@ || old_map.contains_key(k)) by {
                if k != key@ && old_map.contains_key(k) {
                    let j = choose|j: int| 0 <= j < old_recs.len() && old_recs[j].0@ == k;
                    assert(before[j] == old_recs[j]);
                    assert(j != idx);
                    assert(recs@[j] == before[j]);
                    assert(recs@[j].0@ == k);
                    assert(records_map(recs@).contains_key(k));
                }
                if k == key@ {
                    assert(recs@[idx as int].0@ == key@);
                    assert(records_map(recs@).contains_key(k));
                }
                if records_map(recs@).contains_key(k) && k != key@ {
                    let j = choose|j: int| 0 <= j < recs@.len() && recs@[j].0@ == k;
                    assert(j != idx);
                    assert(before[j] == recs@[j]);
                    assert(j < old_recs.len());
                    assert(old_recs[j] == before[j]);
                    assert(old_recs[j].0@ == k);
                    assert(old_map.contains_key(k));
                }
            }
            assert forall|k: Seq<char>| records_map(recs@).contains_key(k) && k != key@ implies
                #[trigger] records_map(recs@)[k] == old_map[k] by {
                let j = choose|j: int| 0 <= j < recs@.len() && recs@[j].0@ == k;
                lemma_map_at(recs@, j);
                assert(j != idx);
                assert(before[j] == recs@[j]);
                assert(j < old_recs.len());
                assert(old_recs[j] == before[j]);
                lemma_map_at(old_recs, j);
            }
            lemma_map_at(recs@, idx as int);
        }
        self.records = recs;
        assert(self.records() =~= old_map.insert(key@, kept@));
        result
    }

    /// Checks a request for `key` at the current time.
    pub fn check_rate_limit(&mut self, key: &str, max_requests: usize, window_secs: u64) -> (r: Result<(), u64>)
        ensures
            exists|now: u64|
                #[trigger] rate_check(
                    old(self).records(),
                    key@,
                    max_requests,
                    window_secs,
                    now,
                    r,
                    final(self).records(),
                ),
    {
        let now = crate::time::now_secs();
        self.check_rate_limit_at(key, max_requests, window_secs, now)
    }

    /// A limiter with no records.
    pub fn default() -> (r: Self)
        ensures
            r.records() == Map::<Seq<char>, Seq<u64>>::empty(),
    {
        RateLimiter::new()
    }

    /// The keys with requests in the last hour before `now`, each with that number.
    pub fn list_active_keys_at(&self, now: u64) -> (r: Vec<(String, usize)>)
        ensures
            active_listing(self.records(), now, r@),
    {
        proof {
            use_type_invariant(self);
        }
        let cutoff = now.saturating_sub(3600);
        let mut r: Vec<(String, usize)> = Vec::new();
        let ghost recs = self.records@;
        let mut i: usize = 0;
        while i < self.records.len()
            invariant
                recs == self.records@,
                distinct_keys(recs),
                cutoff == hour_cutoff(now),
                i <= recs.len(),
                forall|a: int|
                    #![trigger r@[a]]
                    0 <= a < r@.len() ==> exists|b: int|
                        0 <= b < i && #[trigger] recs[b].0@ == r@[a].0@ && r@[a].1 == after_cutoff(
                            recs[b].1@,
                            cutoff,
                        ).len() && r@[a].1 > 0,
                forall|b: int|
                    0 <= b < i && after_cutoff(#[trigger] recs[b].1@, cutoff).len() > 0 ==> exists|a: int|
                        0 <= a < r@.len() && r@[a].0@ == recs[b].0@,
                forall|a: int, c: int| 0 <= a < r@.len() && 0 <= c < r@.len() && a != c ==> r@[a].0@ != r@[c].0@,
            decreases recs.len() - i,
        {
            let c = count_after(&self.records[i].1, cutoff);
            let ghost before = r@;
            if c > 0 {
                r.push((self.records[i].0.clone(), c));
                proof {
                    assert forall|a: int| 0 <= a < before.len() implies r@[a].0@ != recs[i as int].0@ by {
                        let b = choose|b: int|
                            0 <= b < i && #[trigger] recs[b].0@ == before[a].0@ && before[a].1
                                == after_cutoff(recs[b].1@, cutoff).len() && before[a].1 > 0;
                        assert(b != i);
                    }
                    assert(r@[before.len() as int].0@ == recs[i as int].0@);
                }
            }
            proof {
                assert forall|b: int|
                    0 <= b < i + 1 && after_cutoff(#[trigger] recs[b].1@, cutoff).len() > 0 implies exists|a: int|
                        0 <= a < r@.len() && r@[a].0@ == recs[b].0@ by {
                    if b == i {
                        assert(r@[before.len() as int].0@ == recs[b].0@);
                    } else {
                        let a = choose|a: int| 0 <= a < before.len() && before[a].0@ == recs[b].0@;
                        assert(r@[a] == before[a]);
                    }
                }
            }
            i = i + 1;
        }
        proof {
            assert forall|a: int| 0 <= a < r@.len() implies self.records().contains_key(#[trigger] r@[a].0@)
                && r@[a].1 == after_cutoff(self.records()[r@[a].0@], hour_cutoff(now)).len() by {
                let b = choose|b: int|
                    0 <= b < i && #[trigger] recs[b].0@ == r@[a].0@ && r@[a].1 == after_cutoff(
                        recs[b].1@,
                        cutoff,
                    ).len() && r@[a].1 > 0;
                lemma_map_at(recs, b);
            }
            assert forall|k: Seq<char>|
                self.records().contains_key(k) && after_cutoff(self.records()[k], hour_cutoff(now)).len()
                    > 0 implies exists|a: int| 0 <= a < r@.len() && #[trigger] r@[a].0@ == k by {
                let b = choose|b: int| 0 <= b < recs.len() && recs[b].0@ == k;
                lemma_map_at(recs, b);
                assert(after_cutoff(recs[b].1@, cutoff).len() > 0);
            }
        }
        r
    }

    /// The keys with requests in the last hour, each with that number.
    pub fn list_active_keys(&self) -> (r: Vec<(String, usize)>)
        ensures
            exists|now: u64| #[trigger] active_listing(self.records(), now, r@),
    {
        let now = crate::time::now_secs();
        self.list_active_keys_at(now)
    }

    /// Forgets every record.
    pub fn clear(&mut self)
        ensures
            final(self).records() == Map::<Seq<char>, Seq<u64>>::empty(),
    {
        self.records = Vec::new();
        assert(self.records() =~= Map::<Seq<char>, Seq<u64>>::empty());
    }
}

} // verus!
