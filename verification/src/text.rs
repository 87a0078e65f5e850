use vstd::prelude::*;
use vstd::utf8::{decode_utf8, encode_scalar, encode_utf8, valid_utf8};

verus! {

/// The characters of a string slice, in order.
#[verifier::external_body]
pub fn chars_of(s: &str) -> (v: Vec<char>)
    ensures
        v@ == s@,
{
    s.chars().collect()
}

/// A string made of the given characters, in order.
#[verifier::external_body]
pub fn string_of(v: &[char]) -> (s: String)
    ensures
        s@ == v@,
{
    v.iter().collect()
}

/// Appends the characters of a string slice to a character buffer.
pub fn push_str(out: &mut Vec<char>, s: &str)
    ensures
        final(out)@ == old(out)@ + s@,
{
    let cs = chars_of(s);
    push_chars(out, cs.as_slice());
}

/// Appends characters to a character buffer.
pub fn push_chars(out: &mut Vec<char>, cs: &[char])
    ensures
        final(out)@ == old(out)@ + cs@,
{
    let ghost start = out@;
    let mut i: usize = 0;
    while i < cs.len()
        invariant
            i <= cs@.len(),
            out@ == start + cs@.subrange(0, i as int),
        decreases cs@.len() - i,
    {
        out.push(cs[i]);
        i = i + 1;
        assert(out@ =~= start + cs@.subrange(0, i as int));
    }
    assert(cs@.subrange(0, cs@.len() as int) =~= cs@);
}

/// The decimal digit character for `d < 10`.
pub open spec fn digit_char(d: int) -> char {
    (48 + d) as char
}

/// The decimal representation of a natural number, without leading zeros.
pub open spec fn nat_decimal(n: nat) -> Seq<char>
    decreases n,
{
    if n < 10 {
        seq![digit_char(n as int)]
    } else {
        nat_decimal(n / 10).push(digit_char((n % 10) as int))
    }
}

/// The decimal representation of an integer, with a leading '-' when negative.
pub open spec fn int_decimal(i: int) -> Seq<char> {
    if i < 0 {
        seq!['-'] + nat_decimal((-i) as nat)
    } else {
        nat_decimal(i as nat)
    }
}

/// Appends the decimal digits of `n`.
pub fn push_u64_decimal(out: &mut Vec<char>, n: u64)
    ensures
        final(out)@ == old(out)@ + nat_decimal(n as nat),
    decreases n,
{
    if n >= 10 {
        push_u64_decimal(out, n / 10);
    }
    let d = (n % 10) as u8;
    out.push((48 + d) as char);
    assert(out@ =~= old(out)@ + nat_decimal(n as nat));
}

/// Appends the decimal digits of a 128-bit `n`.
pub fn push_u128_decimal(out: &mut Vec<char>, n: u128)
    ensures
        final(out)@ == old(out)@ + nat_decimal(n as nat),
    decreases n,
{
    if n >= 10 {
        push_u128_decimal(out, n / 10);
    }
    let d = (n % 10) as u8;
    out.push((48 + d) as char);
    assert(out@ =~= old(out)@ + nat_decimal(n as nat));
}

/// Appends the decimal form of `i`, with a leading '-' when negative.
pub fn push_i64_decimal(out: &mut Vec<char>, i: i64)
    ensures
        final(out)@ == old(out)@ + int_decimal(i as int),
{
    if i < 0 {
        out.push('-');
        let m: u64 = if i == i64::MIN {
            9223372036854775808u64
        } else {
            (-i) as u64
        };
        push_u64_decimal(out, m);
        assert(out@ =~= old(out)@ + int_decimal(i as int));
    } else {
        push_u64_decimal(out, i as u64);
    }
}

/// The decimal form of an unsigned value as a string.
pub fn u64_to_string(n: u64) -> (s: String)
    ensures
        s@ == nat_decimal(n as nat),
{
    let mut out: Vec<char> = Vec::new();
    push_u64_decimal(&mut out, n);
    assert(out@ =~= nat_decimal(n as nat));
    string_of(out.as_slice())
}

/// The decimal form of a signed value as a string.
pub fn i64_to_string(i: i64) -> (s: String)
    ensures
        s@ == int_decimal(i as int),
{
    let mut out: Vec<char> = Vec::new();
    push_i64_decimal(&mut out, i);
    assert(out@ =~= int_decimal(i as int));
    string_of(out.as_slice())
}

/// Whether two string slices hold the same characters.
pub fn str_equal(a: &str, b: &str) -> (r: bool)
    ensures
        r == (a@ == b@),
{
    let x = chars_of(a);
    let y = chars_of(b);
    if x.len() != y.len() {
        assert(x@.len() != y@.len());
        return false;
    }
    let mut i: usize = 0;
    while i < x.len()
        invariant
            x@ == a@,
            y@ == b@,
            x@.len() == y@.len(),
            i <= x@.len(),
            forall|j: int| 0 <= j < i ==> x@[j] == y@[j],
        decreases x@.len() - i,
    {
        if x[i] != y[i] {
            assert(x@[i as int] != y@[i as int]);
            assert(x@ != y@);
            return false;
        }
        i = i + 1;
    }
    assert(x@ =~= y@);
    true
}

/// The string whose UTF-8 encoding is `bytes`, if `bytes` is valid UTF-8
/// (`String::from_utf8`, which fails exactly on invalid UTF-8).
#[verifier::external_body]
pub fn string_from_utf8(bytes: Vec<u8>) -> (r: Option<String>)
    ensures
        r is Some <==> valid_utf8(bytes@),
        r matches Some(s) ==> s@ == decode_utf8(bytes@),
{
    String::from_utf8(bytes).ok()
}

/// Unicode `White_Space` characters, as `char::is_whitespace` defines them.
pub open spec fn is_white_space(c: char) -> bool {
    let u = c as u32;
    (9 <= u <= 13) || u == 32 || u == 0x85 || u == 0xA0 || u == 0x1680 || (0x2000 <= u <= 0x200A)
        || u == 0x2028 || u == 0x2029 || u == 0x202F || u == 0x205F || u == 0x3000
}

/// Whether `c` is Unicode white space.
pub fn is_whitespace(c: char) -> (r: bool)
    ensures
        r == is_white_space(c),
{
    let u = c as u32;
    (9 <= u && u <= 13) || u == 32 || u == 0x85 || u == 0xA0 || u == 0x1680 || (0x2000 <= u && u
        <= 0x200A) || u == 0x2028 || u == 0x2029 || u == 0x202F || u == 0x205F || u == 0x3000
}

/// Number of leading white-space characters.
pub open spec fn leading_ws(s: Seq<char>) -> nat
    decreases s.len(),
{
    if s.len() > 0 && is_white_space(s[0]) {
        1 + leading_ws(s.drop_first())
    } else {
        0
    }
}

/// Number of trailing white-space characters.
pub open spec fn trailing_ws(s: Seq<char>) -> nat
    decreases s.len(),
{
    if s.len() > 0 && is_white_space(s.last()) {
        1 + trailing_ws(s.drop_last())
    } else {
        0
    }
}

/// `s` without leading and trailing white space (`str::trim`).
pub open spec fn spec_trim(s: Seq<char>) -> Seq<char> {
    let t = s.skip(leading_ws(s) as int);
    t.take(t.len() - trailing_ws(t))
}

proof fn lemma_leading_ws(s: Seq<char>, i: int)
    requires
        0 <= i <= s.len(),
        forall|j: int| 0 <= j < i ==> is_white_space(#[trigger] s[j]),
    ensures
        leading_ws(s) == i + leading_ws(s.skip(i)),
    decreases i,
{
    if i > 0 {
        lemma_leading_ws(s.drop_first(), i - 1);
        assert(s.drop_first().skip(i - 1) =~= s.skip(i));
    } else {
        assert(s.skip(0) =~= s);
    }
}

proof fn lemma_trailing_ws(s: Seq<char>, i: int)
    requires
        0 <= i <= s.len(),
        forall|j: int| s.len() - i <= j < s.len() ==> is_white_space(#[trigger] s[j]),
    ensures
        trailing_ws(s) == i + trailing_ws(s.take(s.len() - i)),
    decreases i,
{
    if i > 0 {
        lemma_trailing_ws(s.drop_last(), i - 1);
        assert(s.drop_last().take(s.drop_last().len() - (i - 1)) =~= s.take(s.len() - i));
    } else {
        assert(s.take(s.len() as int) =~= s);
    }
}

/// Removes leading and trailing white space.
pub fn trim_chars(s: &[char]) -> (r: Vec<char>)
    ensures
        r@ == spec_trim(s@),
{
    let n = s.len();
    let mut start: usize = 0;
    while start < n && is_whitespace(s[start])
        invariant
            n == s@.len(),
            start <= n,
            forall|j: int| 0 <= j < start ==> is_white_space(#[trigger] s@[j]),
        decreases n - start,
    {
        start = start + 1;
    }
    proof {
        lemma_leading_ws(s@, start as int);
        if start < n {
            assert(!is_white_space(s@.skip(start as int)[0]));
        }
    }
    let ghost t = s@.skip(start as int);
    let mut end: usize = n;
    while end > start && is_whitespace(s[end - 1])
        invariant
            n == s@.len(),
            start <= end <= n,
            t == s@.skip(start as int),
            forall|j: int| end - start <= j < t.len() ==> is_white_space(#[trigger] t[j]),
        decreases end - start,
    {
        end = end - 1;
    }
    proof {
        lemma_trailing_ws(t, (n - end) as int);
        if end > start {
            assert(!is_white_space(t.take(end - start).last()));
        }
    }
    let mut r: Vec<char> = Vec::new();
    let mut i = start;
    while i < end
        invariant
            start <= i <= end <= n,
            n == s@.len(),
            r@ == s@.subrange(start as int, i as int),
        decreases end - i,
    {
        r.push(s[i]);
        i = i + 1;
        assert(r@ =~= s@.subrange(start as int, i as int));
    }
    assert(r@ =~= spec_trim(s@));
    r
}

/// The result of `char::is_alphanumeric` (Unicode Alphabetic or Numeric).
pub uninterp spec fn spec_is_alphanumeric(c: char) -> bool;

/// The result of `str::to_uppercase` (Unicode uppercase mapping).
pub uninterp spec fn spec_to_uppercase(s: Seq<char>) -> Seq<char>;

/// The Unicode uppercase form of a string (`str::to_uppercase`).
#[verifier::external_body]
pub fn to_uppercase(s: &str) -> (r: String)
    ensures
        r@ == spec_to_uppercase(s@),
{
    s.to_uppercase()
}

/// Characters allowed in the name of a branch or replica: ASCII letters and digits, `_`
/// and `-`.
pub open spec fn is_name_char(c: char) -> bool {
    ('a' <= c && c <= 'z') || ('A' <= c && c <= 'Z') || ('0' <= c && c <= '9') || c == '_' || c == '-'
}

/// The name characters of `s`, in order.
pub open spec fn name_chars(s: Seq<char>) -> Seq<char> {
    s.filter(|c: char| is_name_char(c))
}

/// Keeps only the name characters of `s`.
pub fn retain_name_chars(s: &str) -> (r: Vec<char>)
    ensures
        r@ == name_chars(s@),
{
    let cs = chars_of(s);
    let mut r: Vec<char> = Vec::new();
    let mut i: usize = 0;
    assert(cs@.take(0) =~= Seq::<char>::empty());
    while i < cs.len()
        invariant
            cs@ == s@,
            i <= cs@.len(),
            r@ == name_chars(cs@.take(i as int)),
        decreases cs@.len() - i,
    {
        let c = cs[i];
        proof {
            assert(cs@.take(i as int).push(c) =~= cs@.take(i + 1));
            cs@.take(i as int).lemma_filter_push(c, |c: char| is_name_char(c));
        }
        if ('a' <= c && c <= 'z') || ('A' <= c && c <= 'Z') || ('0' <= c && c <= '9') || c == '_' || c == '-' {
            r.push(c);
        }
        i = i + 1;
    }
    assert(cs@.take(cs@.len() as int) =~= cs@);
    r
}

/// Whether `c` is alphabetic or numeric in Unicode (`char::is_alphanumeric`).
#[verifier::external_body]
pub fn is_alphanumeric(c: char) -> (r: bool)
    ensures
        r == spec_is_alphanumeric(c),
{
    c.is_alphanumeric()
}

/// The result of `str::to_lowercase` (Unicode lowercase mapping).
pub uninterp spec fn spec_to_lowercase(s: Seq<char>) -> Seq<char>;

/// The Unicode lowercase form of a string (`str::to_lowercase`).
#[verifier::external_body]
pub fn to_lowercase(s: &str) -> (r: String)
    ensures
        r@ == spec_to_lowercase(s@),
{
    s.to_lowercase()
}

/// Whether `s` ends with `suffix`.
pub open spec fn ends_with(s: Seq<char>, suffix: Seq<char>) -> bool {
    suffix.len() <= s.len() && s.subrange(s.len() - suffix.len(), s.len() as int) == suffix
}

/// Whether `s` starts with `prefix`.
pub open spec fn starts_with(s: Seq<char>, prefix: Seq<char>) -> bool {
    prefix.len() <= s.len() && s.subrange(0, prefix.len() as int) == prefix
}

/// `s` with every trailing repetition of `pat` removed (`str::trim_end_matches`).
pub open spec fn trim_end_all(s: Seq<char>, pat: Seq<char>) -> Seq<char>
    decreases s.len(),
{
    if pat.len() > 0 && ends_with(s, pat) {
        trim_end_all(s.subrange(0, s.len() - pat.len()), pat)
    } else {
        s
    }
}

/// Whether `s` ends with `suffix`.
pub fn chars_ends_with(s: &[char], suffix: &[char]) -> (r: bool)
    ensures
        r == ends_with(s@, suffix@),
{
    if suffix.len() > s.len() {
        return false;
    }
    let sl = s.len();
    let off = sl - suffix.len();
    let mut i: usize = 0;
    while i < suffix.len()
        invariant
            sl == s@.len(),
            off + suffix@.len() == s@.len(),
            i <= suffix@.len(),
            forall|j: int| 0 <= j < i ==> s@[off + j] == suffix@[j],
        decreases suffix@.len() - i,
    {
        if s[off + i] != suffix[i] {
            assert(s@.subrange(off as int, s@.len() as int)[i as int] != suffix@[i as int]);
            return false;
        }
        i = i + 1;
    }
    assert(s@.subrange(off as int, s@.len() as int) =~= suffix@);
    true
}

/// Whether `s` starts with `prefix`.
pub fn chars_starts_with(s: &[char], prefix: &[char]) -> (r: bool)
    ensures
        r == starts_with(s@, prefix@),
{
    if prefix.len() > s.len() {
        return false;
    }
    let mut i: usize = 0;
    while i < prefix.len()
        invariant
            prefix@.len() <= s@.len(),
            i <= prefix@.len(),
            forall|j: int| 0 <= j < i ==> s@[j] == prefix@[j],
        decreases prefix@.len() - i,
    {
        if s[i] != prefix[i] {
            assert(s@.subrange(0, prefix@.len() as int)[i as int] != prefix@[i as int]);
            return false;
        }
        i = i + 1;
    }
    assert(s@.subrange(0, prefix@.len() as int) =~= prefix@);
    true
}

/// Whether two character sequences are equal.
pub fn chars_equal(a: &[char], b: &[char]) -> (r: bool)
    ensures
        r == (a@ == b@),
{
    if a.len() != b.len() {
        return false;
    }
    let mut i: usize = 0;
    while i < a.len()
        invariant
            a@.len() == b@.len(),
            i <= a@.len(),
            forall|j: int| 0 <= j < i ==> a@[j] == b@[j],
        decreases a@.len() - i,
    {
        if a[i] != b[i] {
            return false;
        }
        i = i + 1;
    }
    assert(a@ =~= b@);
    true
}

/// Removes every trailing repetition of `pat`.
pub fn trim_end_matches(s: &[char], pat: &[char]) -> (r: Vec<char>)
    ensures
        r@ == trim_end_all(s@, pat@),
{
    let mut end = s.len();
    let mut cur: Vec<char> = copy_chars(s);
    if pat.len() == 0 {
        return cur;
    }
    while chars_ends_with(cur.as_slice(), pat)
        invariant
            pat@.len() > 0,
            trim_end_all(s@, pat@) == trim_end_all(cur@, pat@),
        decreases cur@.len(),
    {
        let keep = cur.len() - pat.len();
        cur.truncate(keep);
    }
    cur
}

/// A copy of a character slice.
pub fn copy_chars(s: &[char]) -> (r: Vec<char>)
    ensures
        r@ == s@,
{
    let mut r: Vec<char> = Vec::new();
    push_chars(&mut r, s);
    assert(r@ =~= s@);
    r
}

pub(crate) fn utf8_width(c: char) -> (w: usize)
    ensures
        w == encode_scalar(c as u32).len(),
{
    let u = c as u32;
    if u <= 0x7F {
        1
    } else if u <= 0x7FF {
        2
    } else if u <= 0xFFFF {
        3
    } else {
        4
    }
}

/// Whether the UTF-8 encoding of `cs` is at least `limit` bytes long.
pub fn utf8_len_at_least(cs: &[char], limit: usize) -> (b: bool)
    requires
        limit <= 0x10000,
    ensures
        b == (encode_utf8(cs@).len() >= limit),
{
    if limit == 0 {
        return true;
    }
    let mut acc: usize = 0;
    let mut i: usize = 0;
    assert(cs@.skip(0) =~= cs@);
    while i < cs.len()
        invariant
            i <= cs@.len(),
            0 < limit <= 0x10000,
            acc < limit,
            acc + encode_utf8(cs@.skip(i as int)).len() == encode_utf8(cs@).len(),
        decreases cs@.len() - i,
    {
        let c = cs[i];
        let w = utf8_width(c);
        assert(cs@.skip(i as int)[0] == c);
        assert(cs@.skip(i as int).drop_first() =~= cs@.skip(i + 1));
        acc = acc + w;
        if acc >= limit {
            return true;
        }
        i = i + 1;
    }
    assert(cs@.skip(i as int) =~= Seq::<char>::empty());
    false
}

/// The parts joined with `sep` between consecutive parts (`[T]::join`).
pub open spec fn join_with(parts: Seq<Seq<char>>, sep: Seq<char>) -> Seq<char>
    decreases parts.len(),
{
    if parts.len() == 0 {
        Seq::empty()
    } else if parts.len() == 1 {
        parts[0]
    } else {
        join_with(parts.drop_last(), sep) + sep + parts.last()
    }
}

/// The character contents of a sequence of strings.
pub open spec fn string_seqs(v: Seq<String>) -> Seq<Seq<char>> {
    Seq::new(v.len(), |i: int| v[i]@)
}

/// Appends the strings joined with `sep`.
pub fn push_joined(out: &mut Vec<char>, parts: &[String], sep: &str)
    ensures
        final(out)@ == old(out)@ + join_with(string_seqs(parts@), sep@),
{
    let ghost start = out@;
    let ghost pv = string_seqs(parts@);
    let mut i: usize = 0;
    assert(pv.subrange(0, 0) =~= Seq::<Seq<char>>::empty());
    assert(out@ =~= start + join_with(pv.subrange(0, 0), sep@));
    while i < parts.len()
        invariant
            pv == string_seqs(parts@),
            i <= parts@.len(),
            out@ == start + join_with(pv.subrange(0, i as int), sep@),
        decreases parts@.len() - i,
    {
        let ghost sub = pv.subrange(0, i + 1);
        assert(sub.drop_last() =~= pv.subrange(0, i as int));
        assert(sub.last() == parts@[i as int]@);
        if i > 0 {
            push_str(out, sep);
        }
        push_str(out, parts[i].as_str());
        assert(out@ =~= start + join_with(sub, sep@));
        i = i + 1;
    }
    assert(pv.subrange(0, pv.len() as int) =~= pv);
}

/// The pieces of `s` between occurrences of `c`, empty pieces included (`str::split`).
pub open spec fn split_at_char(s: Seq<char>, c: char) -> Seq<Seq<char>>
    decreases s.len(),
{
    if s.len() == 0 {
        seq![Seq::<char>::empty()]
    } else {
        let prev = split_at_char(s.drop_last(), c);
        if s.last() == c {
            prev.push(Seq::<char>::empty())
        } else {
            prev.update(prev.len() - 1, prev.last().push(s.last()))
        }
    }
}

/// Splitting always yields at least one piece.
pub proof fn lemma_split_at_char_nonempty(s: Seq<char>, c: char)
    ensures
        split_at_char(s, c).len() >= 1,
    decreases s.len(),
{
    if s.len() > 0 {
        lemma_split_at_char_nonempty(s.drop_last(), c);
    }
}

/// A text without `c` splits into itself alone.
pub proof fn lemma_split_at_char_absent(s: Seq<char>, c: char)
    requires
        !s.contains(c),
    ensures
        split_at_char(s, c) == seq![s],
    decreases s.len(),
{
    if s.len() == 0 {
        assert(s =~= Seq::<char>::empty());
        assert(split_at_char(s, c) =~= seq![s]);
    } else {
        assert(!s.drop_last().contains(c)) by {
            if s.drop_last().contains(c) {
                let j = choose|j: int| 0 <= j < s.drop_last().len() && s.drop_last()[j] == c;
                assert(s[j] == c);
            }
        }
        lemma_split_at_char_absent(s.drop_last(), c);
        assert(s.last() != c) by {
            assert(s[s.len() - 1] == s.last());
        }
        assert(s.drop_last().push(s.last()) =~= s);
        assert(split_at_char(s, c) =~= seq![s]);
    }
}

/// Splitting `a`, `c`, `b` gives the pieces of `a` followed by those of `b`.
pub proof fn lemma_split_at_char_concat(a: Seq<char>, b: Seq<char>, c: char)
    ensures
        split_at_char(a + seq![c] + b, c) == split_at_char(a, c) + split_at_char(b, c),
    decreases b.len(),
{
    let s = a + seq![c] + b;
    if b.len() == 0 {
        assert(s.drop_last() =~= a);
        assert(split_at_char(a, c) + split_at_char(b, c) =~= split_at_char(a, c).push(
            Seq::<char>::empty(),
        ));
    } else {
        let b1 = b.drop_last();
        assert(s.drop_last() =~= a + seq![c] + b1);
        assert(s.last() == b.last());
        lemma_split_at_char_concat(a, b1, c);
        lemma_split_at_char_nonempty(b1, c);
        let pa = split_at_char(a, c);
        let pb = split_at_char(b1, c);
        if b.last() == c {
            assert((pa + pb).push(Seq::<char>::empty()) =~= pa + pb.push(Seq::<char>::empty()));
        } else {
            assert((pa + pb).update(
                (pa + pb).len() - 1,
                (pa + pb).last().push(b.last()),
            ) =~= pa + pb.update(pb.len() - 1, pb.last().push(b.last())));
        }
    }
}

/// Splits characters at every occurrence of `c`.
pub fn split_char(cs: &[char], c: char) -> (r: Vec<Vec<char>>)
    ensures
        r@.len() == split_at_char(cs@, c).len(),
        forall|i: int| 0 <= i < r@.len() ==> #[trigger] r@[i]@ == split_at_char(cs@, c)[i],
{
    let mut done: Vec<Vec<char>> = Vec::new();
    let mut cur: Vec<char> = Vec::new();
    let mut i: usize = 0;
    let ghost view = |v: Seq<Vec<char>>| Seq::new(v.len(), |j: int| v[j]@);
    assert(view(done@).push(cur@) =~= split_at_char(cs@.subrange(0, 0), c));
    while i < cs.len()
        invariant
            i <= cs@.len(),
            view == (|v: Seq<Vec<char>>| Seq::new(v.len(), |j: int| v[j]@)),
            view(done@).push(cur@) == split_at_char(cs@.subrange(0, i as int), c),
        decreases cs@.len() - i,
    {
        let ch = cs[i];
        let ghost prefix = cs@.subrange(0, i + 1);
        assert(prefix.drop_last() =~= cs@.subrange(0, i as int));
        assert(prefix.last() == ch);
        let ghost old_done = view(done@);
        let ghost old_cur = cur@;
        if ch == c {
            done.push(cur);
            cur = Vec::new();
            assert(view(done@) =~= old_done.push(old_cur));
        } else {
            cur.push(ch);
            assert(view(done@) =~= old_done);
            assert(old_done.push(old_cur).update(old_done.len() as int, old_cur.push(ch))
                =~= old_done.push(cur@));
        }
        i = i + 1;
    }
    let ghost before = view(done@);
    done.push(cur);
    assert(view(done@) =~= before.push(cur@));
    assert(cs@.subrange(0, cs@.len() as int) =~= cs@);
    assert(view(done@) == split_at_char(cs@, c));
    assert forall|k: int| 0 <= k < done@.len() implies #[trigger] done@[k]@ == split_at_char(cs@, c)[k] by {
        assert(view(done@)[k] == done@[k]@);
    }
    done
}

/// ASCII lowercase of a character; other characters stay.
pub open spec fn ascii_lower(c: char) -> char {
    if 'A' <= c <= 'Z' {
        ((c as u32) + 32) as char
    } else {
        c
    }
}

/// ASCII lowercase of a text (`str::to_ascii_lowercase`).
pub open spec fn ascii_lowercase(s: Seq<char>) -> Seq<char> {
    Seq::new(s.len(), |i: int| ascii_lower(s[i]))
}

/// The ASCII-lowercase form of a text.
pub fn to_ascii_lowercase(s: &str) -> (r: Vec<char>)
    ensures
        r@ == ascii_lowercase(s@),
{
    let cs = chars_of(s);
    let mut r: Vec<char> = Vec::new();
    let mut i: usize = 0;
    while i < cs.len()
        invariant
            i <= cs@.len(),
            cs@ == s@,
            r@ == ascii_lowercase(s@).subrange(0, i as int),
        decreases cs@.len() - i,
    {
        let c = cs[i];
        let l = if 'A' <= c && c <= 'Z' {
            ((c as u32) + 32) as u8 as char
        } else {
            c
        };
        r.push(l);
        i = i + 1;
        assert(r@ =~= ascii_lowercase(s@).subrange(0, i as int));
    }
    assert(ascii_lowercase(s@).subrange(0, cs@.len() as int) =~= ascii_lowercase(s@));
    r
}

/// Whether two texts are equal ignoring ASCII case (`str::eq_ignore_ascii_case`).
pub open spec fn eq_ignore_ascii_case(a: Seq<char>, b: Seq<char>) -> bool {
    ascii_lowercase(a) == ascii_lowercase(b)
}

/// Whether two texts are equal ignoring ASCII case.
pub fn str_eq_ignore_ascii_case(a: &str, b: &str) -> (r: bool)
    ensures
        r == eq_ignore_ascii_case(a@, b@),
{
    let la = to_ascii_lowercase(a);
    let lb = to_ascii_lowercase(b);
    chars_equal(la.as_slice(), lb.as_slice())
}

/// The character contents of a sequence of character vectors.
pub open spec fn char_vecs(v: Seq<Vec<char>>) -> Seq<Seq<char>> {
    Seq::new(v.len(), |i: int| v[i]@)
}

/// Appends the parts joined with `sep`.
pub fn push_joined_chars(out: &mut Vec<char>, parts: &Vec<Vec<char>>, sep: char)
    ensures
        final(out)@ == old(out)@ + join_with(char_vecs(parts@), seq![sep]),
{
    let ghost start = out@;
    let ghost pv = char_vecs(parts@);
    let mut i: usize = 0;
    assert(pv.subrange(0, 0) =~= Seq::<Seq<char>>::empty());
    assert(out@ =~= start + join_with(pv.subrange(0, 0), seq![sep]));
    while i < parts.len()
        invariant
            pv == char_vecs(parts@),
            i <= parts@.len(),
            out@ == start + join_with(pv.subrange(0, i as int), seq![sep]),
        decreases parts@.len() - i,
    {
        let ghost sub = pv.subrange(0, i + 1);
        assert(sub.drop_last() =~= pv.subrange(0, i as int));
        assert(sub.last() == parts@[i as int]@);
        if i > 0 {
            out.push(sep);
        }
        push_chars(out, parts[i].as_slice());
        assert(out@ =~= start + join_with(sub, seq![sep]));
        i = i + 1;
    }
    assert(pv.subrange(0, pv.len() as int) =~= pv);
}

/// Every piece of a split lies within the text and holds no separator.
pub proof fn lemma_split_at_char_pieces(s: Seq<char>, c: char)
    ensures
        forall|i: int, j: int|
            0 <= i < split_at_char(s, c).len() && 0 <= j < split_at_char(s, c)[i].len() ==> {
                let x = #[trigger] split_at_char(s, c)[i][j];
                x != c && s.contains(x)
            },
    decreases s.len(),
{
    if s.len() > 0 {
        let t = s.drop_last();
        lemma_split_at_char_pieces(t, c);
        lemma_split_at_char_nonempty(t, c);
        let prev = split_at_char(t, c);
        assert forall|i: int, j: int|
            0 <= i < split_at_char(s, c).len() && 0 <= j < split_at_char(s, c)[i].len() implies {
                let x = #[trigger] split_at_char(s, c)[i][j];
                x != c && s.contains(x)
            } by {
            let x = split_at_char(s, c)[i][j];
            if s.last() == c {
                assert(split_at_char(s, c) == prev.push(Seq::<char>::empty()));
                assert(i < prev.len());
                assert(x == prev[i][j]);
                assert(t.contains(x));
                let k = choose|k: int| 0 <= k < t.len() && t[k] == x;
                assert(s[k] == x);
            } else {
                let last = prev.last().push(s.last());
                assert(split_at_char(s, c) == prev.update(prev.len() - 1, last));
                if i == prev.len() - 1 && j == prev.last().len() {
                    assert(x == s.last());
                    assert(s[s.len() - 1] == x);
                } else {
                    assert(x == prev[i][j]);
                    assert(t.contains(x));
                    let k = choose|k: int| 0 <= k < t.len() && t[k] == x;
                    assert(s[k] == x);
                }
            }
        }
    }
}

/// Joining pieces that hold no separator, and splitting again, gives the pieces back.
pub proof fn lemma_split_join(parts: Seq<Seq<char>>, c: char)
    requires
        parts.len() > 0,
        forall|i: int| 0 <= i < parts.len() ==> !(#[trigger] parts[i]).contains(c),
    ensures
        split_at_char(join_with(parts, seq![c]), c) == parts,
    decreases parts.len(),
{
    if parts.len() == 1 {
        lemma_split_at_char_absent(parts[0], c);
        assert(seq![parts[0]] =~= parts);
    } else {
        let init = parts.drop_last();
        assert forall|i: int| 0 <= i < init.len() implies !(#[trigger] init[i]).contains(c) by {
            assert(init[i] == parts[i]);
        }
        lemma_split_join(init, c);
        assert(!parts[parts.len() - 1].contains(c));
        lemma_split_at_char_absent(parts.last(), c);
        lemma_split_at_char_concat(join_with(init, seq![c]), parts.last(), c);
        assert(join_with(parts, seq![c]) == join_with(init, seq![c]) + seq![c] + parts.last());
        assert(init + seq![parts.last()] =~= parts);
    }
}

/// `s` with every leading repetition of `pat` removed (`str::trim_start_matches`).
pub open spec fn trim_start_all(s: Seq<char>, pat: Seq<char>) -> Seq<char>
    decreases s.len(),
{
    if pat.len() > 0 && starts_with(s, pat) {
        trim_start_all(s.subrange(pat.len() as int, s.len() as int), pat)
    } else {
        s
    }
}

/// Removes every leading repetition of `pat`.
pub fn trim_start_matches(s: &[char], pat: &[char]) -> (r: Vec<char>)
    ensures
        r@ == trim_start_all(s@, pat@),
{
    let mut cur: Vec<char> = copy_chars(s);
    if pat.len() == 0 {
        return cur;
    }
    while chars_starts_with(cur.as_slice(), pat)
        invariant
            pat@.len() > 0,
            trim_start_all(s@, pat@) == trim_start_all(cur@, pat@),
        decreases cur@.len(),
    {
        let n = cur.len();
        let rest = copy_chars(cur.as_slice().split_at(pat.len()).1);
        assert(rest@ =~= cur@.subrange(pat@.len() as int, n as int));
        cur = rest;
    }
    cur
}

/// `s` with every leading and trailing `c` removed (`str::trim_matches` with a character).
pub open spec fn trim_char(s: Seq<char>, c: char) -> Seq<char> {
    trim_end_all(trim_start_all(s, seq![c]), seq![c])
}

/// Removes every leading and trailing `c`.
pub fn trim_matches_char(s: &[char], c: char) -> (r: Vec<char>)
    ensures
        r@ == trim_char(s@, c),
{
    let mut p: Vec<char> = Vec::new();
    p.push(c);
    assert(p@ =~= seq![c]);
    let a = trim_start_matches(s, p.as_slice());
    trim_end_matches(a.as_slice(), p.as_slice())
}

/// Position of the first occurrence of `pat` in `s`.
#[verifier::opaque]
pub open spec fn find_first(s: Seq<char>, pat: Seq<char>) -> Option<int> {
    if exists|i: int| 0 <= i && i + pat.len() <= s.len() && #[trigger] s.subrange(i, i + pat.len()) == pat {
        Some(
            choose|i: int|
                0 <= i && i + pat.len() <= s.len() && #[trigger] s.subrange(i, i + pat.len()) == pat && forall|
                    j: int,
                |
                    0 <= j < i ==> #[trigger] s.subrange(j, j + pat.len()) != pat,
        )
    } else {
        None
    }
}

/// Where `find_first` points, `pat` occurs.
pub proof fn lemma_find_first_found(s: Seq<char>, pat: Seq<char>)
    ensures
        find_first(s, pat) matches Some(i) ==> 0 <= i && i + pat.len() <= s.len() && s.subrange(i, i + pat.len())
            == pat,
{
    if exists|i: int| 0 <= i && i + pat.len() <= s.len() && #[trigger] s.subrange(i, i + pat.len()) == pat {
        let i0 = choose|i: int| 0 <= i && i + pat.len() <= s.len() && #[trigger] s.subrange(i, i + pat.len()) == pat;
        let m = lemma_first_match(s, pat, i0);
        lemma_find_first_at(s, pat, m);
    } else {
        reveal(find_first);
    }
}

/// A match of `pat` at or before `i0` with none before it.
proof fn lemma_first_match(s: Seq<char>, pat: Seq<char>, i0: int) -> (m: int)
    requires
        0 <= i0,
        i0 + pat.len() <= s.len(),
        s.subrange(i0, i0 + pat.len()) == pat,
    ensures
        0 <= m <= i0,
        s.subrange(m, m + pat.len()) == pat,
        forall|j: int| 0 <= j < m ==> #[trigger] s.subrange(j, j + pat.len()) != pat,
    decreases i0,
{
    if exists|j: int| 0 <= j < i0 && #[trigger] s.subrange(j, j + pat.len()) == pat {
        let j = choose|j: int| 0 <= j < i0 && #[trigger] s.subrange(j, j + pat.len()) == pat;
        lemma_first_match(s, pat, j)
    } else {
        i0
    }
}

proof fn lemma_find_first_at(s: Seq<char>, pat: Seq<char>, i: int)
    requires
        0 <= i,
        i + pat.len() <= s.len(),
        s.subrange(i, i + pat.len()) == pat,
        forall|j: int| 0 <= j < i ==> #[trigger] s.subrange(j, j + pat.len()) != pat,
    ensures
        find_first(s, pat) == Some(i),
{
    reveal(find_first);
    let k = choose|k: int|
        0 <= k && k + pat.len() <= s.len() && #[trigger] s.subrange(k, k + pat.len()) == pat && forall|j: int|
            0 <= j < k ==> #[trigger] s.subrange(j, j + pat.len()) != pat;
    assert(0 <= i && i + pat.len() <= s.len() && s.subrange(i, i + pat.len()) == pat && forall|j: int|
        0 <= j < i ==> #[trigger] s.subrange(j, j + pat.len()) != pat);
    if k < i {
        assert(s.subrange(k, k + pat.len()) != pat);
    }
    if k > i {
        assert(s.subrange(i, i + pat.len()) != pat);
    }
}

/// Finds the first occurrence of `pat` in `s`.
pub fn find_chars(s: &[char], pat: &[char]) -> (r: Option<usize>)
    ensures
        r matches Some(i) ==> find_first(s@, pat@) == Some(i as int) && i + pat@.len() <= s@.len(),
        r is None ==> find_first(s@, pat@) is None,
{
    if pat.len() > s.len() {
        proof {
            reveal(find_first);
        }
        return None;
    }
    let sl = s.len();
    let last = sl - pat.len();
    let mut i: usize = 0;
    loop
        invariant
            sl == s@.len(),
            last + pat@.len() == s@.len(),
            i <= last,
            forall|j: int| 0 <= j < i ==> #[trigger] s@.subrange(j, j + pat@.len()) != pat@,
        decreases last - i,
    {
        let mut k: usize = 0;
        let mut ok = true;
        while k < pat.len()
            invariant
                sl == s@.len(),
                i + pat@.len() <= s@.len(),
                k <= pat@.len(),
                ok == forall|j: int| 0 <= j < k ==> s@[i + j] == pat@[j],
            decreases pat@.len() - k,
        {
            if s[i + k] != pat[k] {
                ok = false;
            }
            k = k + 1;
        }
        if ok {
            assert(s@.subrange(i as int, i + pat@.len()) =~= pat@);
            proof {
                lemma_find_first_at(s@, pat@, i as int);
            }
            return Some(i);
        } else {
            proof {
                let j = choose|j: int| 0 <= j < pat@.len() && s@[i + j] != pat@[j];
                assert(s@.subrange(i as int, i + pat@.len())[j] != pat@[j]);
            }
        }
        if i == last {
            reveal(find_first);
            assert(!exists|x: int| 0 <= x && x + pat@.len() <= s@.len() && #[trigger] s@.subrange(x, x + pat@.len()) == pat@) by {
                if exists|x: int| 0 <= x && x + pat@.len() <= s@.len() && #[trigger] s@.subrange(x, x + pat@.len()) == pat@ {
                    let x = choose|x: int| 0 <= x && x + pat@.len() <= s@.len() && #[trigger] s@.subrange(x, x + pat@.len()) == pat@;
                    assert(x <= i);
                }
            }
            return None;
        }
        i = i + 1;
    }
}

/// Single quotes doubled, as SQL string literals need (`str::replace('\'', "''")`).
pub open spec fn escape_quotes(s: Seq<char>) -> Seq<char>
    decreases s.len(),
{
    if s.len() == 0 {
        Seq::empty()
    } else if s.last() == '\'' {
        escape_quotes(s.drop_last()) + seq!['\'', '\'']
    } else {
        escape_quotes(s.drop_last()).push(s.last())
    }
}

/// Appends `s` with single quotes doubled.
pub fn push_escaped(out: &mut Vec<char>, s: &[char])
    ensures
        final(out)@ == old(out)@ + escape_quotes(s@),
{
    let ghost start = out@;
    let mut i: usize = 0;
    assert(s@.subrange(0, 0) =~= Seq::<char>::empty());
    assert(out@ =~= start + escape_quotes(s@.subrange(0, 0)));
    while i < s.len()
        invariant
            i <= s@.len(),
            out@ == start + escape_quotes(s@.subrange(0, i as int)),
        decreases s@.len() - i,
    {
        let c = s[i];
        let ghost sub = s@.subrange(0, i + 1);
        assert(sub.drop_last() =~= s@.subrange(0, i as int));
        out.push(c);
        if c == '\'' {
            out.push('\'');
        }
        i = i + 1;
        assert(out@ =~= start + escape_quotes(sub));
    }
    assert(s@.subrange(0, s@.len() as int) =~= s@);
}

/// Appends the parts joined with `sep`.
pub fn push_joined_sep(out: &mut Vec<char>, parts: &Vec<Vec<char>>, sep: &str)
    ensures
        final(out)@ == old(out)@ + join_with(char_vecs(parts@), sep@),
{
    let ghost start = out@;
    let ghost pv = char_vecs(parts@);
    let mut i: usize = 0;
    assert(pv.subrange(0, 0) =~= Seq::<Seq<char>>::empty());
    assert(out@ =~= start + join_with(pv.subrange(0, 0), sep@));
    while i < parts.len()
        invariant
            pv == char_vecs(parts@),
            i <= parts@.len(),
            out@ == start + join_with(pv.subrange(0, i as int), sep@),
        decreases parts@.len() - i,
    {
        let ghost sub = pv.subrange(0, i + 1);
        assert(sub.drop_last() =~= pv.subrange(0, i as int));
        assert(sub.last() == parts@[i as int]@);
        if i > 0 {
            push_str(out, sep);
        }
        push_chars(out, parts[i].as_slice());
        assert(out@ =~= start + join_with(sub, sep@));
        i = i + 1;
    }
    assert(pv.subrange(0, pv.len() as int) =~= pv);
}

/// Whether `c` is an ASCII decimal digit.
pub open spec fn is_digit(c: char) -> bool {
    '0' <= c <= '9'
}

/// The value of a run of decimal digits.
pub open spec fn digits_value(d: Seq<char>) -> nat
    decreases d.len(),
{
    if d.len() == 0 {
        0
    } else {
        10 * digits_value(d.drop_last()) + ((d.last() as u32) - 48) as nat
    }
}

/// Whether a text starts with a sign.
pub open spec fn has_sign(s: Seq<char>) -> bool {
    s.len() > 0 && (s[0] == '-' || s[0] == '+')
}

/// A text without its leading sign.
pub open spec fn unsigned_part(s: Seq<char>) -> Seq<char> {
    if has_sign(s) {
        s.drop_first()
    } else {
        s
    }
}

/// Whether a text is one or more decimal digits.
pub open spec fn all_digits(d: Seq<char>) -> bool {
    d.len() > 0 && forall|i: int| 0 <= i < d.len() ==> is_digit(#[trigger] d[i])
}

/// The signed value of a text of an optional sign and digits.
pub open spec fn signed_value(s: Seq<char>) -> int {
    if s.len() > 0 && s[0] == '-' {
        -(digits_value(unsigned_part(s)) as int)
    } else {
        digits_value(unsigned_part(s)) as int
    }
}

/// The `i64` a text denotes (`str::parse::<i64>`): an optional sign and at least one
/// decimal digit, within range.
pub open spec fn spec_parse_i64(s: Seq<char>) -> Option<i64> {
    if all_digits(unsigned_part(s)) && i64::MIN <= signed_value(s) <= i64::MAX {
        Some(signed_value(s) as i64)
    } else {
        None
    }
}

proof fn lemma_digits_prefix(d: Seq<char>, i: int)
    requires
        0 <= i <= d.len(),
    ensures
        digits_value(d.subrange(0, i)) <= digits_value(d),
    decreases d.len() - i,
{
    if i < d.len() {
        lemma_digits_prefix(d, i + 1);
        let p = d.subrange(0, i + 1);
        assert(p.drop_last() =~= d.subrange(0, i));
        assert(digits_value(p) >= digits_value(p.drop_last()));
    } else {
        assert(d.subrange(0, i) =~= d);
    }
}

/// Parses a signed 64-bit decimal integer.
pub fn parse_i64(s: &[char]) -> (r: Option<i64>)
    ensures
        r == spec_parse_i64(s@),
{
    let n = s.len();
    let neg = n > 0 && s[0] == '-';
    let start: usize = if n > 0 && (s[0] == '-' || s[0] == '+') {
        1
    } else {
        0
    };
    let ghost d = unsigned_part(s@);
    assert(d =~= s@.subrange(start as int, n as int));
    if start == n {
        return None;
    }
    let mut acc: u64 = 0;
    let mut i = start;
    assert(d.subrange(0, 0) =~= Seq::<char>::empty());
    while i < n
        invariant
            n == s@.len(),
            start <= i <= n,
            d == unsigned_part(s@),
            neg == (s@.len() > 0 && s@[0] == '-'),
            d =~= s@.subrange(start as int, n as int),
            acc == digits_value(d.subrange(0, i - start)),
            forall|k: int| 0 <= k < i - start ==> is_digit(#[trigger] d[k]),
        decreases n - i,
    {
        let c = s[i];
        assert(d[i - start] == s@[i as int]);
        if !('0' <= c && c <= '9') {
            assert(!is_digit(d[i - start]));
            assert(!all_digits(d));
            return None;
        }
        let dv = (c as u32 - 48) as u64;
        let ghost sub = d.subrange(0, i - start + 1);
        assert(sub.drop_last() =~= d.subrange(0, i - start));
        assert(sub.last() == c);
        match acc.checked_mul(10) {
            Some(m) => match m.checked_add(dv) {
                Some(v) => {
                    acc = v;
                },
                None => {
                    proof {
                        lemma_digits_prefix(d, i - start + 1);
                    }
                    return None;
                },
            },
            None => {
                proof {
                    lemma_digits_prefix(d, i - start + 1);
                }
                return None;
            },
        }
        i = i + 1;
    }
    assert(d.subrange(0, n - start) =~= d);
    if neg {
        if acc <= 9223372036854775808u64 {
            if acc == 9223372036854775808u64 {
                Some(i64::MIN)
            } else {
                Some(-(acc as i64))
            }
        } else {
            None
        }
    } else {
        if acc <= 9223372036854775807u64 {
            Some(acc as i64)
        } else {
            None
        }
    }
}

/// `s` split at the first `c` into what comes before and after it (`str::split_once`).
pub open spec fn split_once(s: Seq<char>, c: char) -> Option<(Seq<char>, Seq<char>)> {
    match find_first(s, seq![c]) {
        Some(i) => Some((s.subrange(0, i), s.subrange(i + 1, s.len() as int))),
        None => None,
    }
}

/// Splits `s` at the first `c`.
pub fn split_once_char(s: &[char], c: char) -> (r: Option<(Vec<char>, Vec<char>)>)
    ensures
        match split_once(s@, c) {
            Some((a, b)) => r matches Some((x, y)) && x@ == a && y@ == b,
            None => r is None,
        },
{
    let mut p: Vec<char> = Vec::new();
    p.push(c);
    assert(p@ =~= seq![c]);
    match find_chars(s, p.as_slice()) {
        Some(i) => {
            let (a, b) = s.split_at(i);
            let x = copy_chars(a);
            let y = copy_chars(b.split_at(1).1);
            assert(y@ =~= s@.subrange(i + 1, s@.len() as int));
            Some((x, y))
        },
        None => None,
    }
}

/// A text without a leading `+`.
pub open spec fn without_plus(s: Seq<char>) -> Seq<char> {
    if s.len() > 0 && s[0] == '+' {
        s.drop_first()
    } else {
        s
    }
}

/// The `usize` a text denotes (`str::parse::<usize>`): an optional `+` and at least one
/// decimal digit, within range.
pub open spec fn spec_parse_usize(s: Seq<char>) -> Option<usize> {
    let d = without_plus(s);
    if all_digits(d) && digits_value(d) <= usize::MAX {
        Some(digits_value(d) as usize)
    } else {
        None
    }
}

/// Parses an unsigned decimal integer of the machine's word size.
pub fn parse_usize(s: &str) -> (r: Option<usize>)
    ensures
        r == spec_parse_usize(s@),
{
    let cs = chars_of(s);
    let n = cs.len();
    let start: usize = if n > 0 && cs[0] == '+' {
        1
    } else {
        0
    };
    let ghost d = without_plus(s@);
    assert(d =~= cs@.subrange(start as int, n as int));
    if start == n {
        return None;
    }
    let mut acc: usize = 0;
    let mut i = start;
    assert(d.subrange(0, 0) =~= Seq::<char>::empty());
    while i < n
        invariant
            n == cs@.len(),
            cs@ == s@,
            start <= i <= n,
            d == without_plus(s@),
            d =~= cs@.subrange(start as int, n as int),
            acc == digits_value(d.subrange(0, i - start)),
            forall|k: int| 0 <= k < i - start ==> is_digit(#[trigger] d[k]),
        decreases n - i,
    {
        let c = cs[i];
        assert(d[i - start] == cs@[i as int]);
        if !('0' <= c && c <= '9') {
            assert(!is_digit(d[i - start]));
            return None;
        }
        let dv = (c as u32 - 48) as usize;
        let ghost sub = d.subrange(0, i - start + 1);
        assert(sub.drop_last() =~= d.subrange(0, i - start));
        assert(sub.last() == c);
        match acc.checked_mul(10) {
            Some(m) => match m.checked_add(dv) {
                Some(v) => {
                    acc = v;
                },
                None => {
                    proof {
                        lemma_digits_prefix(d, i - start + 1);
                    }
                    return None;
                },
            },
            None => {
                proof {
                    lemma_digits_prefix(d, i - start + 1);
                }
                return None;
            },
        }
        i = i + 1;
    }
    assert(d.subrange(0, n - start) =~= d);
    Some(acc)
}

/// The `u64` a text denotes (`str::parse::<u64>`): an optional `+` and at least one
/// decimal digit, within range.
pub open spec fn spec_parse_u64(s: Seq<char>) -> Option<u64> {
    let d = without_plus(s);
    if all_digits(d) && digits_value(d) <= u64::MAX {
        Some(digits_value(d) as u64)
    } else {
        None
    }
}

/// Parses an unsigned 64-bit decimal integer.
pub fn parse_u64(s: &str) -> (r: Option<u64>)
    ensures
        r == spec_parse_u64(s@),
{
    let cs = chars_of(s);
    let n = cs.len();
    let start: usize = if n > 0 && cs[0] == '+' {
        1
    } else {
        0
    };
    let ghost d = without_plus(s@);
    assert(d =~= cs@.subrange(start as int, n as int));
    if start == n {
        return None;
    }
    let mut acc: u64 = 0;
    let mut i = start;
    assert(d.subrange(0, 0) =~= Seq::<char>::empty());
    while i < n
        invariant
            n == cs@.len(),
            cs@ == s@,
            start <= i <= n,
            d == without_plus(s@),
            d =~= cs@.subrange(start as int, n as int),
            acc == digits_value(d.subrange(0, i - start)),
            forall|k: int| 0 <= k < i - start ==> is_digit(#[trigger] d[k]),
        decreases n - i,
    {
        let c = cs[i];
        assert(d[i - start] == cs@[i as int]);
        if !('0' <= c && c <= '9') {
            assert(!is_digit(d[i - start]));
            return None;
        }
        let dv = (c as u32 - 48) as u64;
        let ghost sub = d.subrange(0, i - start + 1);
        assert(sub.drop_last() =~= d.subrange(0, i - start));
        assert(sub.last() == c);
        match acc.checked_mul(10) {
            Some(m) => match m.checked_add(dv) {
                Some(v) => {
                    acc = v;
                },
                None => {
                    proof {
                        lemma_digits_prefix(d, i - start + 1);
                    }
                    return None;
                },
            },
            None => {
                proof {
                    lemma_digits_prefix(d, i - start + 1);
                }
                return None;
            },
        }
        i = i + 1;
    }
    assert(d.subrange(0, n - start) =~= d);
    Some(acc)
}

} // verus!
