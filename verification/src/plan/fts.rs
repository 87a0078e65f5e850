use vstd::prelude::*;
use vstd::utf8::encode_utf8;

use crate::text::{
    chars_ends_with, chars_equal, chars_of, chars_starts_with, copy_chars, ends_with,
    is_alphanumeric, push_chars, utf8_len_at_least,
    is_white_space, is_whitespace, spec_is_alphanumeric, spec_to_lowercase, spec_trim,
    starts_with, string_of, to_lowercase, trim_chars, trim_end_all, trim_end_matches,
};

verus! {

/// The character sequences held by a vector of character vectors.
pub open spec fn chars_seqs(v: Seq<Vec<char>>) -> Seq<Seq<char>> {
    Seq::new(v.len(), |i: int| v[i]@)
}

/// The character sequences held by a vector of strings.
pub open spec fn strings_view(v: Seq<String>) -> Seq<Seq<char>> {
    Seq::new(v.len(), |i: int| v[i]@)
}

/// Whether `c` separates pieces: white space when splitting on spaces, otherwise any
/// character that is neither alphanumeric nor one of `*` and `:`.
pub open spec fn is_separator(by_space: bool, c: char) -> bool {
    if by_space {
        is_white_space(c)
    } else {
        !(spec_is_alphanumeric(c) || c == '*' || c == ':')
    }
}

/// The pieces of `s` between separators, empty pieces included (`str::split`).
pub open spec fn split_pieces(s: Seq<char>, by_space: bool) -> Seq<Seq<char>>
    decreases s.len(),
{
    if s.len() == 0 {
        seq![Seq::<char>::empty()]
    } else {
        let prev = split_pieces(s.drop_last(), by_space);
        if is_separator(by_space, s.last()) {
            prev.push(Seq::<char>::empty())
        } else {
            prev.update(prev.len() - 1, prev.last().push(s.last()))
        }
    }
}

/// A split always yields at least one piece.
pub proof fn lemma_split_nonempty(s: Seq<char>, by_space: bool)
    ensures
        split_pieces(s, by_space).len() >= 1,
    decreases s.len(),
{
    if s.len() > 0 {
        lemma_split_nonempty(s.drop_last(), by_space);
    }
}

fn separator(by_space: bool, c: char) -> (b: bool)
    ensures
        b == is_separator(by_space, c),
{
    if by_space {
        is_whitespace(c)
    } else {
        !(is_alphanumeric(c) || c == '*' || c == ':')
    }
}

/// Splits characters into the pieces between separators.
pub fn split_chars(cs: &[char], by_space: bool) -> (r: Vec<Vec<char>>)
    ensures
        chars_seqs(r@) == split_pieces(cs@, by_space),
{
    let mut done: Vec<Vec<char>> = Vec::new();
    let mut cur: Vec<char> = Vec::new();
    let mut i: usize = 0;
    assert(chars_seqs(done@).push(cur@) =~= split_pieces(cs@.subrange(0, 0), by_space));
    while i < cs.len()
        invariant
            i <= cs@.len(),
            chars_seqs(done@).push(cur@) == split_pieces(cs@.subrange(0, i as int), by_space),
        decreases cs@.len() - i,
    {
        let c = cs[i];
        let sep = separator(by_space, c);
        let ghost prefix = cs@.subrange(0, i + 1);
        assert(prefix.drop_last() =~= cs@.subrange(0, i as int));
        assert(prefix.last() == c);
        let ghost old_done = chars_seqs(done@);
        let ghost old_cur = cur@;
        if sep {
            done.push(cur);
            cur = Vec::new();
            assert(chars_seqs(done@) =~= old_done.push(old_cur));
        } else {
            cur.push(c);
            assert(chars_seqs(done@) =~= old_done);
            assert(old_done.push(old_cur).update(old_done.len() as int, old_cur.push(c))
                =~= old_done.push(cur@));
        }
        i = i + 1;
    }
    let ghost before = chars_seqs(done@);
    done.push(cur);
    assert(chars_seqs(done@) =~= before.push(cur@));
    assert(cs@.subrange(0, cs@.len() as int) =~= cs@);
    done
}

/// The normal form of a word: trimmed and lowercased.
pub open spec fn word_form(w: Seq<char>) -> Seq<char> {
    spec_to_lowercase(spec_trim(w))
}

/// The normal forms of the pieces that are not empty, in order.
pub open spec fn keep_words(p: Seq<Seq<char>>) -> Seq<Seq<char>>
    decreases p.len(),
{
    if p.len() == 0 {
        Seq::empty()
    } else {
        let prev = keep_words(p.drop_last());
        let w = word_form(p.last());
        if w.len() > 0 {
            prev.push(w)
        } else {
            prev
        }
    }
}

/// The search tokens of a text: the runs of alphanumeric characters, `*` and `:`,
/// trimmed and lowercased, empty ones left out.
pub open spec fn spec_tokenize(s: Seq<char>) -> Seq<Seq<char>> {
    keep_words(split_pieces(s, false))
}

/// Splits a text into lowercase search tokens.
pub fn tokenize_words(s: &str) -> (r: Vec<String>)
    ensures
        strings_view(r@) == spec_tokenize(s@),
{
    let cs = chars_of(s);
    let pieces = split_chars(cs.as_slice(), false);
    let ghost pv = chars_seqs(pieces@);
    let mut r: Vec<String> = Vec::new();
    let mut j: usize = 0;
    assert(pv.subrange(0, 0) =~= Seq::<Seq<char>>::empty());
    assert(strings_view(r@) =~= Seq::<Seq<char>>::empty());
    while j < pieces.len()
        invariant
            pv == chars_seqs(pieces@),
            j <= pieces@.len(),
            strings_view(r@) == keep_words(pv.subrange(0, j as int)),
        decreases pieces@.len() - j,
    {
        let t = trim_chars(pieces[j].as_slice());
        let ts = string_of(t.as_slice());
        let low = to_lowercase(ts.as_str());
        let ghost sub = pv.subrange(0, j + 1);
        assert(sub.drop_last() =~= pv.subrange(0, j as int));
        assert(sub.last() == pieces@[j as int]@);
        let ghost before = strings_view(r@);
        if !low.as_str().is_empty() {
            r.push(low);
            assert(strings_view(r@) =~= before.push(word_form(sub.last())));
        }
        j = j + 1;
    }
    assert(pv.subrange(0, pv.len() as int) =~= pv);
    r
}

/// Whether a query term asks for a prefix match (ends with `:*` or `*`).
pub open spec fn term_is_prefix(q: Seq<char>) -> bool {
    ends_with(q, seq![':', '*']) || ends_with(q, seq!['*'])
}

/// A query term without its trailing `:*` and `*` markers.
pub open spec fn clean_term(q: Seq<char>) -> Seq<char> {
    trim_end_all(trim_end_all(q, seq![':', '*']), seq!['*'])
}

/// Whether a query term is satisfied by the document tokens: an empty term always is;
/// a prefix term needs a token that starts with it, any other term an equal token.
pub open spec fn term_found(doc: Seq<Seq<char>>, q: Seq<char>) -> bool {
    let c = clean_term(q);
    c.len() == 0 || exists|i: int|
        0 <= i < doc.len() && (if term_is_prefix(q) {
            starts_with(#[trigger] doc[i], c)
        } else {
            doc[i] == c
        })
}

/// Full-text match: the query has at least one token and every token is found in the
/// document's tokens.
pub open spec fn spec_fts_matches(doc: Seq<char>, query: Seq<char>) -> bool {
    let d = spec_tokenize(doc);
    let q = spec_tokenize(query);
    q.len() > 0 && forall|j: int| 0 <= j < q.len() ==> term_found(d, #[trigger] q[j])
}

fn colon_star() -> (v: Vec<char>)
    ensures
        v@ == seq![':', '*'],
{
    let mut v: Vec<char> = Vec::new();
    v.push(':');
    v.push('*');
    assert(v@ =~= seq![':', '*']);
    v
}

fn star() -> (v: Vec<char>)
    ensures
        v@ == seq!['*'],
{
    let mut v: Vec<char> = Vec::new();
    v.push('*');
    assert(v@ =~= seq!['*']);
    v
}

fn clean_term_chars(q: &[char]) -> (r: Vec<char>)
    ensures
        r@ == clean_term(q@),
{
    let cs = colon_star();
    let st = star();
    let t = trim_end_matches(q, cs.as_slice());
    trim_end_matches(t.as_slice(), st.as_slice())
}

fn term_found_in(doc: &Vec<String>, q: &[char]) -> (b: bool)
    ensures
        b == term_found(strings_view(doc@), q@),
{
    let cs = colon_star();
    let st = star();
    let is_prefix = chars_ends_with(q, cs.as_slice()) || chars_ends_with(q, st.as_slice());
    let clean = clean_term_chars(q);
    if clean.len() == 0 {
        return true;
    }
    let ghost dv = strings_view(doc@);
    let mut i: usize = 0;
    while i < doc.len()
        invariant
            dv == strings_view(doc@),
            i <= doc@.len(),
            is_prefix == term_is_prefix(q@),
            clean@ == clean_term(q@),
            forall|k: int|
                0 <= k < i ==> !(if term_is_prefix(q@) {
                    starts_with(#[trigger] dv[k], clean@)
                } else {
                    dv[k] == clean@
                }),
        decreases doc@.len() - i,
    {
        let d = chars_of(doc[i].as_str());
        assert(dv[i as int] == d@);
        let hit = if is_prefix {
            chars_starts_with(d.as_slice(), clean.as_slice())
        } else {
            chars_equal(d.as_slice(), clean.as_slice())
        };
        if hit {
            return true;
        }
        i = i + 1;
    }
    false
}

/// Whether every token of `query` occurs in `doc` (a trailing `*` or `:*` asks for a prefix).
pub fn fts_matches(doc: &str, query: &str) -> (b: bool)
    ensures
        b == spec_fts_matches(doc@, query@),
{
    let doc_tokens = tokenize_words(doc);
    let query_tokens = tokenize_words(query);
    let ghost qv = strings_view(query_tokens@);
    let ghost dv = strings_view(doc_tokens@);
    if query_tokens.len() == 0 {
        return false;
    }
    let mut j: usize = 0;
    while j < query_tokens.len()
        invariant
            qv == strings_view(query_tokens@),
            dv == strings_view(doc_tokens@),
            qv == spec_tokenize(query@),
            dv == spec_tokenize(doc@),
            j <= query_tokens@.len(),
            forall|k: int| 0 <= k < j ==> term_found(dv, #[trigger] qv[k]),
        decreases query_tokens@.len() - j,
    {
        let q = chars_of(query_tokens[j].as_str());
        assert(qv[j as int] == q@);
        if !term_found_in(&doc_tokens, q.as_slice()) {
            assert(!term_found(dv, qv[j as int]));
            return false;
        }
        j = j + 1;
    }
    true
}

/// The cleaned query terms: each token without its prefix markers, empty ones left out.
pub open spec fn query_terms(tokens: Seq<Seq<char>>) -> Seq<Seq<char>>
    decreases tokens.len(),
{
    if tokens.len() == 0 {
        Seq::empty()
    } else {
        let prev = query_terms(tokens.drop_last());
        let c = clean_term(tokens.last());
        if c.len() > 0 {
            prev.push(c)
        } else {
            prev
        }
    }
}

/// The pieces that are not empty, in order.
pub open spec fn nonempty_pieces(p: Seq<Seq<char>>) -> Seq<Seq<char>>
    decreases p.len(),
{
    if p.len() == 0 {
        Seq::empty()
    } else {
        let prev = nonempty_pieces(p.drop_last());
        if p.last().len() > 0 {
            prev.push(p.last())
        } else {
            prev
        }
    }
}

/// The words of a text: maximal runs of non-white-space characters (`str::split_whitespace`).
pub open spec fn spec_split_whitespace(s: Seq<char>) -> Seq<Seq<char>> {
    nonempty_pieces(split_pieces(s, true))
}

/// Number of leading characters that are not alphanumeric.
pub open spec fn lead_non_alnum(s: Seq<char>) -> nat
    decreases s.len(),
{
    if s.len() > 0 && !spec_is_alphanumeric(s[0]) {
        1 + lead_non_alnum(s.drop_first())
    } else {
        0
    }
}

/// Number of trailing characters that are not alphanumeric.
pub open spec fn trail_non_alnum(s: Seq<char>) -> nat
    decreases s.len(),
{
    if s.len() > 0 && !spec_is_alphanumeric(s.last()) {
        1 + trail_non_alnum(s.drop_last())
    } else {
        0
    }
}

/// `s` without its leading and trailing non-alphanumeric characters.
pub open spec fn strip_non_alnum(s: Seq<char>) -> Seq<char> {
    let t = s.skip(lead_non_alnum(s) as int);
    t.take(t.len() - trail_non_alnum(t))
}

proof fn lemma_lead_non_alnum(s: Seq<char>, i: int)
    requires
        0 <= i <= s.len(),
        forall|j: int| 0 <= j < i ==> !spec_is_alphanumeric(#[trigger] s[j]),
    ensures
        lead_non_alnum(s) == i + lead_non_alnum(s.skip(i)),
    decreases i,
{
    if i > 0 {
        lemma_lead_non_alnum(s.drop_first(), i - 1);
        assert(s.drop_first().skip(i - 1) =~= s.skip(i));
    } else {
        assert(s.skip(0) =~= s);
    }
}

proof fn lemma_trail_non_alnum(s: Seq<char>, i: int)
    requires
        0 <= i <= s.len(),
        forall|j: int| s.len() - i <= j < s.len() ==> !spec_is_alphanumeric(#[trigger] s[j]),
    ensures
        trail_non_alnum(s) == i + trail_non_alnum(s.take(s.len() - i)),
    decreases i,
{
    if i > 0 {
        lemma_trail_non_alnum(s.drop_last(), i - 1);
        assert(s.drop_last().take(s.drop_last().len() - (i - 1)) =~= s.take(s.len() - i));
    } else {
        assert(s.take(s.len() as int) =~= s);
    }
}

fn strip_non_alnum_chars(s: &[char]) -> (r: Vec<char>)
    ensures
        r@ == strip_non_alnum(s@),
{
    let n = s.len();
    let mut start: usize = 0;
    while start < n && !is_alphanumeric(s[start])
        invariant
            n == s@.len(),
            start <= n,
            forall|j: int| 0 <= j < start ==> !spec_is_alphanumeric(#[trigger] s@[j]),
        decreases n - start,
    {
        start = start + 1;
    }
    proof {
        lemma_lead_non_alnum(s@, start as int);
        if start < n {
            assert(spec_is_alphanumeric(s@.skip(start as int)[0]));
        }
    }
    let ghost t = s@.skip(start as int);
    let mut end: usize = n;
    while end > start && !is_alphanumeric(s[end - 1])
        invariant
            n == s@.len(),
            start <= end <= n,
            t == s@.skip(start as int),
            forall|j: int| end - start <= j < t.len() ==> !spec_is_alphanumeric(#[trigger] t[j]),
        decreases end - start,
    {
        end = end - 1;
    }
    proof {
        lemma_trail_non_alnum(t, (n - end) as int);
        if end > start {
            assert(spec_is_alphanumeric(t.take(end - start).last()));
        }
    }
    let mut r: Vec<char> = Vec::new();
    let mut i = start;
    while i < end
        invariant
            start <= i <= end <= n,
            n == s@.len(),
            r@ == s@.subrange(start as int, i as int),
        decreases end - i,
    {
        r.push(s[i]);
        i = i + 1;
        assert(r@ =~= s@.subrange(start as int, i as int));
    }
    assert(r@ =~= strip_non_alnum(s@));
    r
}

/// Whether `q` occurs in `s` as a contiguous run.
pub open spec fn contains_seq(s: Seq<char>, q: Seq<char>) -> bool {
    exists|i: int| 0 <= i && i + q.len() <= s.len() && #[trigger] s.subrange(i, i + q.len()) == q
}

fn occurs_at(s: &[char], q: &[char], i: usize) -> (b: bool)
    requires
        i + q@.len() <= s@.len(),
    ensures
        b == (s@.subrange(i as int, i + q@.len()) == q@),
{
    let sl = s.len();
    let mut k: usize = 0;
    while k < q.len()
        invariant
            sl == s@.len(),
            i + q@.len() <= s@.len(),
            k <= q@.len(),
            forall|j: int| 0 <= j < k ==> s@[i + j] == q@[j],
        decreases q@.len() - k,
    {
        if s[i + k] != q[k] {
            assert(s@.subrange(i as int, i + q@.len())[k as int] != q@[k as int]);
            return false;
        }
        k = k + 1;
    }
    assert(s@.subrange(i as int, i + q@.len()) =~= q@);
    true
}

fn contains_chars(s: &[char], q: &[char]) -> (b: bool)
    ensures
        b == contains_seq(s@, q@),
{
    if q.len() > s.len() {
        return false;
    }
    if q.len() == 0 {
        assert(s@.subrange(0, 0int + q@.len()) =~= q@);
        return true;
    }
    let sl = s.len();
    let last = sl - q.len();
    let mut i: usize = 0;
    while i <= last
        invariant
            sl == s@.len(),
            q@.len() >= 1,
            last + q@.len() == s@.len(),
            i <= last + 1,
            forall|j: int| 0 <= j < i ==> #[trigger] s@.subrange(j, j + q@.len()) != q@,
        decreases last + 1 - i,
    {
        if occurs_at(s, q, i) {
            return true;
        }
        i = i + 1;
    }
    false
}

/// Whether a document word hits a query term: its alphanumeric core, lowercased, equals a
/// term, or is at least three bytes long and contains one.
pub open spec fn word_hits(w: Seq<char>, terms: Seq<Seq<char>>) -> bool {
    let clean = spec_to_lowercase(strip_non_alnum(w));
    exists|k: int|
        0 <= k < terms.len() && (clean == #[trigger] terms[k] || (encode_utf8(clean).len() >= 3
            && contains_seq(clean, terms[k])))
}

fn word_hits_exec(w: &[char], terms: &Vec<Vec<char>>) -> (b: bool)
    ensures
        b == word_hits(w@, chars_seqs(terms@)),
{
    let stripped = strip_non_alnum_chars(w);
    let ss = string_of(stripped.as_slice());
    let low = to_lowercase(ss.as_str());
    let clean = chars_of(low.as_str());
    let long = utf8_len_at_least(clean.as_slice(), 3);
    let ghost tv = chars_seqs(terms@);
    let mut k: usize = 0;
    while k < terms.len()
        invariant
            tv == chars_seqs(terms@),
            k <= terms@.len(),
            clean@ == spec_to_lowercase(strip_non_alnum(w@)),
            long == (encode_utf8(clean@).len() >= 3),
            forall|j: int|
                0 <= j < k ==> !(clean@ == #[trigger] tv[j] || (encode_utf8(clean@).len() >= 3
                    && contains_seq(clean@, tv[j]))),
        decreases terms@.len() - k,
    {
        let t = terms[k].as_slice();
        assert(tv[k as int] == t@);
        if chars_equal(clean.as_slice(), t) {
            return true;
        }
        if long && contains_chars(clean.as_slice(), t) {
            return true;
        }
        k = k + 1;
    }
    false
}

/// Index of the first word that hits a term at or after `i`, or 0 when none does.
pub open spec fn first_hit_from(words: Seq<Seq<char>>, terms: Seq<Seq<char>>, i: int) -> int
    decreases words.len() - i,
{
    if i < 0 || i >= words.len() {
        0
    } else if word_hits(words[i], terms) {
        i
    } else {
        first_hit_from(words, terms, i + 1)
    }
}

proof fn lemma_first_hit_bound(words: Seq<Seq<char>>, terms: Seq<Seq<char>>, i: int)
    requires
        words.len() > 0,
    ensures
        0 <= first_hit_from(words, terms, i) < words.len(),
    decreases words.len() - i,
{
    if 0 <= i < words.len() && !word_hits(words[i], terms) {
        lemma_first_hit_bound(words, terms, i + 1);
    }
}

/// `...`, which marks words left out of a snippet.
pub open spec fn ellipsis() -> Seq<char> {
    seq!['.', '.', '.']
}

/// A snippet word: in `<b>` and `</b>` when it hits a term.
pub open spec fn snippet_word(w: Seq<char>, terms: Seq<Seq<char>>) -> Seq<char> {
    if word_hits(w, terms) {
        seq!['<', 'b', '>'] + w + seq!['<', '/', 'b', '>']
    } else {
        w
    }
}

/// The parts joined with single spaces.
pub open spec fn join_spaced(parts: Seq<Seq<char>>) -> Seq<char>
    decreases parts.len(),
{
    if parts.len() == 0 {
        Seq::empty()
    } else if parts.len() == 1 {
        parts[0]
    } else {
        join_spaced(parts.drop_last()) + seq![' '] + parts.last()
    }
}

/// A search snippet: the document itself when the query has no terms or the document no
/// words; otherwise the words from four before the first hit (the first word when none
/// hits) to four after it, hits in bold, with `...` where words were left out.
pub open spec fn spec_fts_snippet(doc: Seq<char>, query: Seq<char>) -> Seq<char> {
    let terms = query_terms(spec_tokenize(query));
    let words = spec_split_whitespace(doc);
    if terms.len() == 0 || doc.len() == 0 || words.len() == 0 {
        doc
    } else {
        let m = first_hit_from(words, terms, 0);
        let start = if m >= 4 {
            m - 4
        } else {
            0
        };
        let end = if m + 5 < words.len() {
            m + 5
        } else {
            words.len() as int
        };
        let middle = Seq::new((end - start) as nat, |k: int| snippet_word(words[start + k], terms));
        let head = if start > 0 {
            seq![ellipsis()]
        } else {
            Seq::<Seq<char>>::empty()
        };
        let tail = if end < words.len() {
            seq![ellipsis()]
        } else {
            Seq::<Seq<char>>::empty()
        };
        join_spaced(head + middle + tail)
    }
}

fn join_spaced_exec(parts: &Vec<Vec<char>>) -> (r: Vec<char>)
    ensures
        r@ == join_spaced(chars_seqs(parts@)),
{
    let ghost pv = chars_seqs(parts@);
    let mut out: Vec<char> = Vec::new();
    let mut i: usize = 0;
    assert(pv.subrange(0, 0) =~= Seq::<Seq<char>>::empty());
    while i < parts.len()
        invariant
            pv == chars_seqs(parts@),
            i <= parts@.len(),
            out@ == join_spaced(pv.subrange(0, i as int)),
        decreases parts@.len() - i,
    {
        let ghost sub = pv.subrange(0, i + 1);
        assert(sub.drop_last() =~= pv.subrange(0, i as int));
        if i > 0 {
            out.push(' ');
        }
        push_chars(&mut out, parts[i].as_slice());
        if i == 0 {
            assert(out@ =~= join_spaced(sub));
        } else {
            assert(out@ =~= join_spaced(sub));
        }
        i = i + 1;
    }
    assert(pv.subrange(0, pv.len() as int) =~= pv);
    out
}

fn ellipsis_chars() -> (v: Vec<char>)
    ensures
        v@ == ellipsis(),
{
    let mut v: Vec<char> = Vec::new();
    v.push('.');
    v.push('.');
    v.push('.');
    assert(v@ =~= ellipsis());
    v
}

fn query_terms_exec(tokens: &Vec<String>) -> (r: Vec<Vec<char>>)
    ensures
        chars_seqs(r@) == query_terms(strings_view(tokens@)),
{
    let ghost tv = strings_view(tokens@);
    let mut r: Vec<Vec<char>> = Vec::new();
    let mut i: usize = 0;
    assert(tv.subrange(0, 0) =~= Seq::<Seq<char>>::empty());
    assert(chars_seqs(r@) =~= Seq::<Seq<char>>::empty());
    while i < tokens.len()
        invariant
            tv == strings_view(tokens@),
            i <= tokens@.len(),
            chars_seqs(r@) == query_terms(tv.subrange(0, i as int)),
        decreases tokens@.len() - i,
    {
        let ghost sub = tv.subrange(0, i + 1);
        assert(sub.drop_last() =~= tv.subrange(0, i as int));
        let q = chars_of(tokens[i].as_str());
        assert(sub.last() == q@);
        let c = clean_term_chars(q.as_slice());
        let ghost before = chars_seqs(r@);
        if c.len() > 0 {
            r.push(c);
            assert(chars_seqs(r@) =~= before.push(clean_term(q@)));
        }
        i = i + 1;
    }
    assert(tv.subrange(0, tv.len() as int) =~= tv);
    r
}

fn nonempty_pieces_exec(p: Vec<Vec<char>>) -> (r: Vec<Vec<char>>)
    ensures
        chars_seqs(r@) == nonempty_pieces(chars_seqs(p@)),
{
    let ghost pv = chars_seqs(p@);
    let mut r: Vec<Vec<char>> = Vec::new();
    let mut i: usize = 0;
    assert(pv.subrange(0, 0) =~= Seq::<Seq<char>>::empty());
    assert(chars_seqs(r@) =~= Seq::<Seq<char>>::empty());
    while i < p.len()
        invariant
            pv == chars_seqs(p@),
            i <= p@.len(),
            chars_seqs(r@) == nonempty_pieces(pv.subrange(0, i as int)),
        decreases p@.len() - i,
    {
        let ghost sub = pv.subrange(0, i + 1);
        assert(sub.drop_last() =~= pv.subrange(0, i as int));
        assert(sub.last() == p@[i as int]@);
        let ghost before = chars_seqs(r@);
        if p[i].len() > 0 {
            let w = copy_chars(p[i].as_slice());
            r.push(w);
            assert(chars_seqs(r@) =~= before.push(sub.last()));
        }
        i = i + 1;
    }
    assert(pv.subrange(0, pv.len() as int) =~= pv);
    r
}

/// A short excerpt of `doc` around the first word that hits the query, hits in bold.
pub fn fts_snippet(doc: &str, query: &str) -> (r: String)
    ensures
        r@ == spec_fts_snippet(doc@, query@),
{
    let qtokens = tokenize_words(query);
    let terms = query_terms_exec(&qtokens);
    let ghost tv = chars_seqs(terms@);
    let dcs = chars_of(doc);
    if terms.len() == 0 || dcs.len() == 0 {
        return doc.to_string();
    }
    let pieces = split_chars(dcs.as_slice(), true);
    let words = nonempty_pieces_exec(pieces);
    let ghost wv = chars_seqs(words@);
    if words.len() == 0 {
        return doc.to_string();
    }
    let n = words.len();
    let mut m: usize = 0;
    let mut found = false;
    while m < n
        invariant_except_break
            !found,
        invariant
            n == words@.len(),
            wv == chars_seqs(words@),
            tv == chars_seqs(terms@),
            m <= n,
            n > 0,
            first_hit_from(wv, tv, 0) == first_hit_from(wv, tv, m as int),
        ensures
            m <= n,
            found ==> m < n && word_hits(wv[m as int], tv),
            !found ==> m == n,
            first_hit_from(wv, tv, 0) == first_hit_from(wv, tv, m as int),
        decreases n - m,
    {
        assert(wv[m as int] == words@[m as int]@);
        if word_hits_exec(words[m].as_slice(), &terms) {
            found = true;
            break;
        }
        m = m + 1;
    }
    let match_idx: usize = if found {
        m
    } else {
        0
    };
    proof {
        lemma_first_hit_bound(wv, tv, 0);
    }
    assert(match_idx as int == first_hit_from(wv, tv, 0));
    let start: usize = if match_idx >= 4 {
        match_idx - 4
    } else {
        0
    };
    let end: usize = if n - match_idx > 5 {
        match_idx + 5
    } else {
        n
    };
    let ghost head = if start > 0 {
        seq![ellipsis()]
    } else {
        Seq::<Seq<char>>::empty()
    };
    let ghost middle = Seq::new(
        (end - start) as nat,
        |k: int| snippet_word(wv[start + k], tv),
    );
    let mut parts: Vec<Vec<char>> = Vec::new();
    if start > 0 {
        parts.push(ellipsis_chars());
    }
    assert(chars_seqs(parts@) =~= head);
    let mut i = start;
    while i < end
        invariant
            start <= i <= end <= n,
            n == words@.len(),
            wv == chars_seqs(words@),
            tv == chars_seqs(terms@),
            middle == Seq::new((end - start) as nat, |k: int| snippet_word(wv[start + k], tv)),
            chars_seqs(parts@) == head + middle.subrange(0, i - start),
        decreases end - i,
    {
        let w = words[i].as_slice();
        assert(wv[i as int] == w@);
        let ghost before = chars_seqs(parts@);
        if word_hits_exec(w, &terms) {
            let mut b: Vec<char> = Vec::new();
            b.push('<');
            b.push('b');
            b.push('>');
            push_chars(&mut b, w);
            b.push('<');
            b.push('/');
            b.push('b');
            b.push('>');
            assert(b@ =~= seq!['<', 'b', '>'] + w@ + seq!['<', '/', 'b', '>']);
            parts.push(b);
        } else {
            parts.push(copy_chars(w));
        }
        assert(chars_seqs(parts@) =~= before.push(snippet_word(wv[i as int], tv)));
        assert(middle.subrange(0, i + 1 - start) =~= middle.subrange(0, i - start).push(
            middle[i - start],
        ));
        i = i + 1;
    }
    assert(middle.subrange(0, end - start) =~= middle);
    let ghost before_tail = chars_seqs(parts@);
    let ghost tail = if end < n {
        seq![ellipsis()]
    } else {
        Seq::<Seq<char>>::empty()
    };
    if end < n {
        parts.push(ellipsis_chars());
        assert(chars_seqs(parts@) =~= before_tail.push(ellipsis()));
    }
    assert(chars_seqs(parts@) =~= head + middle + tail);
    let out = join_spaced_exec(&parts);
    assert(dcs@ == doc@);
    assert(wv == spec_split_whitespace(doc@));
    assert(tv == query_terms(spec_tokenize(query@)));
    string_of(out.as_slice())
}

} // verus!
