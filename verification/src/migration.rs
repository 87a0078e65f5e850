use vstd::prelude::*;

use crate::text::{chars_of, spec_trim, split_at_char, split_char, string_of, trim_chars};

verus! {

/// A schema migration: its version, name and SQL text.
#[derive(Debug, Clone, PartialEq)]
pub struct Migration {
    pub version: i64,
    pub name: String,
    pub sql: String,
}

/// A migration recorded as applied.
#[derive(Debug, Clone, PartialEq)]
pub struct AppliedMigration {
    pub id: i64,
    pub version: i64,
    pub name: String,
    pub applied_at: u64,
}

/// Quoting state after reading `s`: 0 outside quotes, 1 inside a single-quoted string,
/// 2 inside a double-quoted identifier. A doubled quote leaves and re-enters, so it
/// stays inside.
pub open spec fn quote_state(s: Seq<char>) -> int
    decreases s.len(),
{
    if s.len() == 0 {
        0
    } else {
        let q = quote_state(s.drop_last());
        let c = s.last();
        if q == 0 {
            if c == '\'' {
                1
            } else if c == '"' {
                2
            } else {
                0
            }
        } else if q == 1 {
            if c == '\'' {
                0
            } else {
                1
            }
        } else {
            if c == '"' {
                0
            } else {
                2
            }
        }
    }
}

/// The pieces of `s` between semicolons that stand outside quotes.
pub open spec fn sql_pieces(s: Seq<char>) -> Seq<Seq<char>>
    decreases s.len(),
{
    if s.len() == 0 {
        seq![Seq::<char>::empty()]
    } else {
        let prev = sql_pieces(s.drop_last());
        if s.last() == ';' && quote_state(s.drop_last()) == 0 {
            prev.push(Seq::<char>::empty())
        } else {
            prev.update(prev.len() - 1, prev.last().push(s.last()))
        }
    }
}

/// The trimmed pieces that are not empty, in order.
pub open spec fn statements_of(p: Seq<Seq<char>>) -> Seq<Seq<char>>
    decreases p.len(),
{
    if p.len() == 0 {
        Seq::empty()
    } else {
        let prev = statements_of(p.drop_last());
        let t = spec_trim(p.last());
        if t.len() > 0 {
            prev.push(t)
        } else {
            prev
        }
    }
}

/// The statements of a script: split at semicolons outside quotes, or at every semicolon
/// when a quote is left open, each trimmed, empty ones dropped.
pub open spec fn spec_split_statements(sql: Seq<char>) -> Seq<Seq<char>> {
    if quote_state(sql) == 0 {
        statements_of(sql_pieces(sql))
    } else {
        statements_of(split_at_char(sql, ';'))
    }
}

fn next_state(q: u8, c: char) -> (r: u8)
    requires
        q <= 2,
    ensures
        r <= 2,
        r as int == (if q == 0 {
            if c == '\'' {
                1int
            } else if c == '"' {
                2int
            } else {
                0int
            }
        } else if q == 1 {
            if c == '\'' {
                0int
            } else {
                1int
            }
        } else {
            if c == '"' {
                0int
            } else {
                2int
            }
        }),
{
    if q == 0 {
        if c == '\'' {
            1
        } else if c == '"' {
            2
        } else {
            0
        }
    } else if q == 1 {
        if c == '\'' {
            0
        } else {
            1
        }
    } else {
        if c == '"' {
            0
        } else {
            2
        }
    }
}

fn pieces_view(v: &Vec<Vec<char>>) -> (g: Ghost<Seq<Seq<char>>>)
    ensures
        g@ == Seq::new(v@.len(), |i: int| v@[i]@),
{
    Ghost(Seq::new(v@.len(), |i: int| v@[i]@))
}

fn sql_split(cs: &[char]) -> (r: (Vec<Vec<char>>, u8))
    ensures
        Seq::new(r.0@.len(), |i: int| r.0@[i]@) == sql_pieces(cs@),
        r.1 as int == quote_state(cs@),
{
    let mut done: Vec<Vec<char>> = Vec::new();
    let mut cur: Vec<char> = Vec::new();
    let mut q: u8 = 0;
    let mut i: usize = 0;
    assert(Seq::new(done@.len(), |k: int| done@[k]@).push(cur@) =~= sql_pieces(
        cs@.subrange(0, 0),
    ));
    while i < cs.len()
        invariant
            i <= cs@.len(),
            q <= 2,
            q as int == quote_state(cs@.subrange(0, i as int)),
            Seq::new(done@.len(), |k: int| done@[k]@).push(cur@) == sql_pieces(
                cs@.subrange(0, i as int),
            ),
        decreases cs@.len() - i,
    {
        let c = cs[i];
        let ghost prefix = cs@.subrange(0, i + 1);
        assert(prefix.drop_last() =~= cs@.subrange(0, i as int));
        assert(prefix.last() == c);
        let ghost old_done = Seq::new(done@.len(), |k: int| done@[k]@);
        let ghost old_cur = cur@;
        if c == ';' && q == 0 {
            done.push(cur);
            cur = Vec::new();
            assert(Seq::new(done@.len(), |k: int| done@[k]@) =~= old_done.push(old_cur));
        } else {
            cur.push(c);
            assert(Seq::new(done@.len(), |k: int| done@[k]@) =~= old_done);
            assert(old_done.push(old_cur).update(old_done.len() as int, old_cur.push(c))
                =~= old_done.push(cur@));
        }
        q = next_state(q, c);
        i = i + 1;
    }
    let ghost before = Seq::new(done@.len(), |k: int| done@[k]@);
    done.push(cur);
    assert(Seq::new(done@.len(), |k: int| done@[k]@) =~= before.push(cur@));
    assert(cs@.subrange(0, cs@.len() as int) =~= cs@);
    (done, q)
}

fn collect_statements(pieces: &Vec<Vec<char>>, Ghost(pv): Ghost<Seq<Seq<char>>>) -> (r: Vec<String>)
    requires
        pv == Seq::new(pieces@.len(), |i: int| pieces@[i]@),
    ensures
        Seq::new(r@.len(), |i: int| r@[i]@) == statements_of(pv),
{
    let mut r: Vec<String> = Vec::new();
    let mut j: usize = 0;
    assert(pv.subrange(0, 0) =~= Seq::<Seq<char>>::empty());
    assert(Seq::new(r@.len(), |i: int| r@[i]@) =~= Seq::<Seq<char>>::empty());
    while j < pieces.len()
        invariant
            pv == Seq::new(pieces@.len(), |i: int| pieces@[i]@),
            j <= pieces@.len(),
            Seq::new(r@.len(), |i: int| r@[i]@) == statements_of(pv.subrange(0, j as int)),
        decreases pieces@.len() - j,
    {
        let ghost sub = pv.subrange(0, j + 1);
        assert(sub.drop_last() =~= pv.subrange(0, j as int));
        assert(sub.last() == pieces@[j as int]@);
        let t = trim_chars(pieces[j].as_slice());
        let ghost before = Seq::new(r@.len(), |i: int| r@[i]@);
        if t.len() > 0 {
            r.push(string_of(t.as_slice()));
            assert(Seq::new(r@.len(), |i: int| r@[i]@) =~= before.push(t@));
        }
        j = j + 1;
    }
    assert(pv.subrange(0, pv.len() as int) =~= pv);
    r
}

/// Splits a migration script into its statements.
pub fn split_statements(sql: &str) -> (r: Vec<String>)
    ensures
        Seq::new(r@.len(), |i: int| r@[i]@) == spec_split_statements(sql@),
{
    let cs = chars_of(sql);
    let (pieces, q) = sql_split(cs.as_slice());
    if q == 0 {
        let g = pieces_view(&pieces);
        collect_statements(&pieces, g)
    } else {
        let plain = split_char(cs.as_slice(), ';');
        let g = pieces_view(&plain);
        assert(g@ =~= split_at_char(cs@, ';'));
        collect_statements(&plain, g)
    }
}

} // verus!
