use vstd::prelude::*;

use crate::text::{nat_decimal, push_str, push_u64_decimal, str_equal, string_of};

verus! {

/// The value of the last entry with key `k`, if any.
pub open spec fn lookup(s: Seq<(String, String)>, k: Seq<char>) -> Option<Seq<char>>
    decreases s.len(),
{
    if s.len() == 0 {
        None
    } else if s.last().0@ == k {
        Some(s.last().1@)
    } else {
        lookup(s.drop_last(), k)
    }
}

/// Whether `i` is the last position whose key is `k`.
pub open spec fn last_with_key(s: Seq<(String, String)>, i: int, k: Seq<char>) -> bool {
    0 <= i < s.len() && s[i].0@ == k && forall|j: int| i < j < s.len() ==> s[j].0@ != k
}

proof fn lemma_lookup_update(s: Seq<(String, String)>, i: int, e: (String, String), k2: Seq<char>)
    requires
        last_with_key(s, i, e.0@),
    ensures
        lookup(s.update(i, e), k2) == if k2 == e.0@ {
            Some(e.1@)
        } else {
            lookup(s, k2)
        },
    decreases s.len(),
{
    let u = s.update(i, e);
    if i == s.len() - 1 {
        assert(u.drop_last() =~= s.drop_last());
    } else {
        assert(u.drop_last() =~= s.drop_last().update(i, e));
        assert(s.last().0@ != e.0@);
        lemma_lookup_update(s.drop_last(), i, e, k2);
    }
}

/// Query-string parameters of a request: a map from names to values.
#[derive(Debug, Clone)]
pub struct QueryParams {
    entries: Vec<(String, String)>,
}

impl View for QueryParams {
    type V = Map<Seq<char>, Seq<char>>;

    closed spec fn view(&self) -> Map<Seq<char>, Seq<char>> {
        Map::new(|k: Seq<char>| lookup(self.entries@, k) is Some, |k: Seq<char>| lookup(self.entries@, k).unwrap())
    }
}

impl QueryParams {
    /// No parameters.
    pub fn new() -> (p: Self)
        ensures
            p@ == Map::<Seq<char>, Seq<char>>::empty(),
    {
        let p = QueryParams { entries: Vec::new() };
        assert(p@ =~= Map::<Seq<char>, Seq<char>>::empty());
        p
    }

    /// The value of the parameter `key`.
    pub fn get(&self, key: &str) -> (r: Option<&String>)
        ensures
            r is Some == self@.contains_key(key@),
            r matches Some(v) ==> v@ == self@[key@],
    {
        let mut j = self.entries.len();
        assert(self.entries@.subrange(0, j as int) =~= self.entries@);
        while j > 0
            invariant
                j <= self.entries@.len(),
                lookup(self.entries@, key@) == lookup(self.entries@.subrange(0, j as int), key@),
            decreases j,
        {
            let ghost sub = self.entries@.subrange(0, j as int);
            assert(sub.drop_last() =~= self.entries@.subrange(0, j - 1));
            if str_equal(self.entries[j - 1].0.as_str(), key) {
                return Some(&self.entries[j - 1].1);
            }
            j = j - 1;
        }
        None
    }

    /// Sets the parameter `key` to `value`, replacing an earlier value.
    pub fn insert(&mut self, key: String, value: String)
        ensures
            final(self)@ == old(self)@.insert(key@, value@),
    {
        let ghost old_entries = self.entries@;
        let ghost k = key@;
        let ghost v = value@;
        let mut j = self.entries.len();
        let mut found = false;
        while j > 0
            invariant_except_break
                !found,
            invariant
                j <= self.entries@.len(),
                self.entries@ == old_entries,
                k == key@,
                forall|m: int| j <= m < old_entries.len() ==> old_entries[m].0@ != k,
            ensures
                found ==> j > 0 && last_with_key(old_entries, j - 1, k),
                !found ==> forall|m: int| 0 <= m < old_entries.len() ==> old_entries[m].0@ != k,
            decreases j,
        {
            if str_equal(self.entries[j - 1].0.as_str(), key.as_str()) {
                found = true;
                break;
            }
            j = j - 1;
        }
        if found {
            let e = (key, value);
            proof {
                assert forall|k2: Seq<char>| lookup(old_entries.update(j - 1, e), k2) == if k2 == k {
                    Some(v)
                } else {
                    lookup(old_entries, k2)
                } by {
                    lemma_lookup_update(old_entries, j - 1, e, k2);
                }
            }
            self.entries.set(j - 1, e);
        } else {
            self.entries.push((key, value));
            assert(self.entries@.drop_last() =~= old_entries);
        }
        assert forall|k2: Seq<char>| lookup(self.entries@, k2) == if k2 == k {
            Some(v)
        } else {
            lookup(old_entries, k2)
        } by {}
        assert(self@.dom() =~= old(self)@.insert(k, v).dom());
        assert(self@ =~= old(self)@.insert(k, v));
    }
}

/// A request against one table of the REST gateway, with its query parameters.
#[derive(Debug, Clone)]
pub struct QueryBuilder {
    pub base_url: String,
    pub table: String,
    pub api_key: String,
    pub params: QueryParams,
}

fn joined(a: &str, b: &str) -> (s: String)
    ensures
        s@ == a@ + b@,
{
    let mut out: Vec<char> = Vec::new();
    push_str(&mut out, a);
    push_str(&mut out, b);
    string_of(out.as_slice())
}

impl QueryBuilder {
    /// Chooses the columns to return (`select=`).
    pub fn select(self, columns: &str) -> (q: Self)
        ensures
            q.params@ == self.params@.insert("select"@, columns@),
            q.base_url == self.base_url,
            q.table == self.table,
            q.api_key == self.api_key,
    {
        let mut q = self;
        q.params.insert(String::from_str("select"), columns.to_string());
        q
    }

    /// Keeps rows whose `column` equals `value` (`column=eq.value`).
    pub fn eq(self, column: &str, value: &str) -> (q: Self)
        ensures
            q.params@ == self.params@.insert(column@, "eq."@ + value@),
            q.base_url == self.base_url,
            q.table == self.table,
            q.api_key == self.api_key,
    {
        let mut q = self;
        q.params.insert(column.to_string(), joined("eq.", value));
        q
    }

    /// Keeps rows whose `column` differs from `value` (`column=neq.value`).
    pub fn neq(self, column: &str, value: &str) -> (q: Self)
        ensures
            q.params@ == self.params@.insert(column@, "neq."@ + value@),
            q.base_url == self.base_url,
            q.table == self.table,
            q.api_key == self.api_key,
    {
        let mut q = self;
        q.params.insert(column.to_string(), joined("neq.", value));
        q
    }

    /// Keeps rows whose `column` is greater than `value` (`column=gt.value`).
    pub fn gt(self, column: &str, value: &str) -> (q: Self)
        ensures
            q.params@ == self.params@.insert(column@, "gt."@ + value@),
            q.base_url == self.base_url,
            q.table == self.table,
            q.api_key == self.api_key,
    {
        let mut q = self;
        q.params.insert(column.to_string(), joined("gt.", value));
        q
    }

    /// Keeps rows whose `column` is less than `value` (`column=lt.value`).
    pub fn lt(self, column: &str, value: &str) -> (q: Self)
        ensures
            q.params@ == self.params@.insert(column@, "lt."@ + value@),
            q.base_url == self.base_url,
            q.table == self.table,
            q.api_key == self.api_key,
    {
        let mut q = self;
        q.params.insert(column.to_string(), joined("lt.", value));
        q
    }

    /// Returns at most `count` rows (`limit=count`).
    pub fn limit(self, count: usize) -> (q: Self)
        ensures
            q.params@ == self.params@.insert("limit"@, nat_decimal(count as nat)),
            q.base_url == self.base_url,
            q.table == self.table,
            q.api_key == self.api_key,
    {
        let mut q = self;
        let mut digits: Vec<char> = Vec::new();
        push_u64_decimal(&mut digits, count as u64);
        assert(digits@ =~= nat_decimal(count as nat));
        q.params.insert(String::from_str("limit"), string_of(digits.as_slice()));
        q
    }
}

/// Client for the REST gateway.
#[derive(Debug, Clone)]
pub struct PostgrestClient {
    pub base_url: String,
    pub api_key: String,
}

impl PostgrestClient {
    /// A client for the gateway at `base_url`.
    pub fn new(base_url: String, api_key: String) -> (c: Self)
        ensures
            c.base_url == base_url,
            c.api_key == api_key,
    {
        PostgrestClient { base_url, api_key }
    }

    /// A request against `table`, with no parameters yet.
    pub fn from(&self, table: &str) -> (q: QueryBuilder)
        ensures
            q.base_url@ == self.base_url@ + "/rest/v1/"@ + table@,
            q.table@ == table@,
            q.api_key@ == self.api_key@,
            q.params@ == Map::<Seq<char>, Seq<char>>::empty(),
    {
        let mut url: Vec<char> = Vec::new();
        push_str(&mut url, self.base_url.as_str());
        push_str(&mut url, "/rest/v1/");
        push_str(&mut url, table);
        QueryBuilder {
            base_url: string_of(url.as_slice()),
            table: table.to_string(),
            api_key: self.api_key.clone(),
            params: QueryParams::new(),
        }
    }
}

} // verus!
