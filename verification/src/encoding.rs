use vstd::prelude::*;

use crate::text::{string_of, chars_of};

verus! {

/// The URL-safe base64 alphabet: `A-Z`, `a-z`, `0-9`, `-`, `_`.
pub open spec fn b64url_char(i: int) -> char {
    if i < 26 {
        (65 + i) as char
    } else if i < 52 {
        (97 + i - 26) as char
    } else if i < 62 {
        (48 + i - 52) as char
    } else if i == 62 {
        '-'
    } else {
        '_'
    }
}

/// The 6-bit value of a URL-safe base64 character, if it is one.
pub open spec fn b64url_val(c: char) -> Option<u32> {
    let u = c as u32;
    if 65 <= u <= 90 {
        Some((u - 65) as u32)
    } else if 97 <= u <= 122 {
        Some((u - 97 + 26) as u32)
    } else if 48 <= u <= 57 {
        Some((u - 48 + 52) as u32)
    } else if u == 45 {
        Some(62)
    } else if u == 95 {
        Some(63)
    } else {
        None
    }
}

/// Three bytes packed big-endian into 24 bits.
pub open spec fn pack3(b0: u8, b1: u8, b2: u8) -> u32 {
    ((b0 as u32) << 16) | ((b1 as u32) << 8) | (b2 as u32)
}

/// Four 6-bit values packed into 24 bits.
pub open spec fn pack4(c0: u32, c1: u32, c2: u32, c3: u32) -> u32 {
    (c0 << 18) | (c1 << 12) | (c2 << 6) | c3
}

/// The characters one input group of up to three bytes encodes to:
/// two characters for one byte, three for two, four for three (no padding).
pub open spec fn b64url_group(s: Seq<u8>) -> Seq<char> {
    let b0 = s[0];
    let b1 = if s.len() > 1 { s[1] } else { 0u8 };
    let b2 = if s.len() > 2 { s[2] } else { 0u8 };
    let t = pack3(b0, b1, b2);
    seq![b64url_char(((t >> 18) & 63) as int), b64url_char(((t >> 12) & 63) as int)] + (if s.len()
        > 1 {
        seq![b64url_char(((t >> 6) & 63) as int)]
    } else {
        Seq::<char>::empty()
    }) + (if s.len() > 2 {
        seq![b64url_char((t & 63) as int)]
    } else {
        Seq::<char>::empty()
    })
}

/// Unpadded URL-safe base64 of a byte string.
pub open spec fn b64url_encode(s: Seq<u8>) -> Seq<char>
    decreases s.len(),
{
    if s.len() == 0 {
        Seq::empty()
    } else if s.len() <= 3 {
        b64url_group(s)
    } else {
        b64url_group(s) + b64url_encode(s.skip(3))
    }
}

/// The 6-bit value of character `j` of a group, 0 past the end of the input.
pub open spec fn group_val(cs: Seq<char>, j: int) -> u32 {
    if j < cs.len() {
        match b64url_val(cs[j]) {
            Some(v) => v,
            None => 0,
        }
    } else {
        0
    }
}

/// Whether the first `min(4, len)` characters are all in the alphabet.
pub open spec fn group_valid(cs: Seq<char>) -> bool {
    forall|j: int| 0 <= j < 4 && j < cs.len() ==> #[trigger] b64url_val(cs[j]) is Some
}

/// The bytes one group of up to four characters decodes to.
pub open spec fn b64url_group_bytes(cs: Seq<char>) -> Seq<u8> {
    let t = pack4(group_val(cs, 0), group_val(cs, 1), group_val(cs, 2), group_val(cs, 3));
    seq![((t >> 16) & 255) as u8] + (if cs.len() > 2 {
        seq![((t >> 8) & 255) as u8]
    } else {
        Seq::<u8>::empty()
    }) + (if cs.len() > 3 {
        seq![(t & 255) as u8]
    } else {
        Seq::<u8>::empty()
    })
}

/// Decoding of unpadded URL-safe base64; `None` when a character is outside the alphabet.
pub open spec fn b64url_decode(cs: Seq<char>) -> Option<Seq<u8>>
    decreases cs.len(),
{
    if cs.len() == 0 {
        Some(Seq::empty())
    } else if !group_valid(cs) {
        None
    } else if cs.len() <= 4 {
        Some(b64url_group_bytes(cs))
    } else {
        match b64url_decode(cs.skip(4)) {
            Some(rest) => Some(b64url_group_bytes(cs) + rest),
            None => None,
        }
    }
}

fn b64url_char_exec(i: u32) -> (c: char)
    requires
        i < 64,
    ensures
        c == b64url_char(i as int),
{
    if i < 26 {
        (65 + i as u8) as char
    } else if i < 52 {
        (97 + (i - 26) as u8) as char
    } else if i < 62 {
        (48 + (i - 52) as u8) as char
    } else if i == 62 {
        '-'
    } else {
        '_'
    }
}

fn b64url_val_exec(c: char) -> (r: Option<u32>)
    ensures
        r == b64url_val(c),
{
    let u = c as u32;
    if 65 <= u && u <= 90 {
        Some(u - 65)
    } else if 97 <= u && u <= 122 {
        Some(u - 97 + 26)
    } else if 48 <= u && u <= 57 {
        Some(u - 48 + 52)
    } else if u == 45 {
        Some(62)
    } else if u == 95 {
        Some(63)
    } else {
        None
    }
}

/// The four 6-bit fields of a 24-bit group are below 64.
pub proof fn lemma_sextets_bounded_pub(t: u32)
    ensures
        (t >> 18) & 63 < 64,
        (t >> 12) & 63 < 64,
        (t >> 6) & 63 < 64,
        t & 63 < 64,
{
    lemma_sextets_bounded(t);
}

proof fn lemma_sextets_bounded(t: u32)
    ensures
        (t >> 18) & 63 < 64,
        (t >> 12) & 63 < 64,
        (t >> 6) & 63 < 64,
        t & 63 < 64,
{
    assert((t >> 18) & 63 < 64) by (bit_vector);
    assert((t >> 12) & 63 < 64) by (bit_vector);
    assert((t >> 6) & 63 < 64) by (bit_vector);
    assert(t & 63 < 64) by (bit_vector);
}

/// Unpadded URL-safe base64 encoding of a byte string.
pub fn base64_url_encode(input: &[u8]) -> (out: String)
    ensures
        out@ == b64url_encode(input@),
{
    let mut out: Vec<char> = Vec::new();
    let n = input.len();
    let mut i: usize = 0;
    assert(input@.skip(0) =~= input@);
    while i < n
        invariant
            n == input@.len(),
            i <= n,
            out@ + b64url_encode(input@.skip(i as int)) == b64url_encode(input@),
        decreases n - i,
    {
        let ghost rest = input@.skip(i as int);
        let b0 = input[i] as u32;
        let b1 = if n - i > 1 { input[i + 1] as u32 } else { 0 };
        let b2 = if n - i > 2 { input[i + 2] as u32 } else { 0 };
        let triple = (b0 << 16) | (b1 << 8) | b2;
        proof {
            let r1 = if rest.len() > 1 { rest[1] } else { 0u8 };
            let r2 = if rest.len() > 2 { rest[2] } else { 0u8 };
            assert(triple == pack3(rest[0], r1, r2));
            lemma_sextets_bounded(triple);
        }
        let ghost before = out@;
        out.push(b64url_char_exec((triple >> 18) & 0x3F));
        out.push(b64url_char_exec((triple >> 12) & 0x3F));
        if n - i > 1 {
            out.push(b64url_char_exec((triple >> 6) & 0x3F));
        }
        if n - i > 2 {
            out.push(b64url_char_exec(triple & 0x3F));
        }
        proof {
            assert(out@ =~= before + b64url_group(rest));
            if rest.len() > 3 {
                assert(rest.skip(3) =~= input@.skip(i + 3));
            }
        }
        i = if n - i > 3 { i + 3 } else { n };
        proof {
            if i == n {
                assert(input@.skip(n as int) =~= Seq::<u8>::empty());
            }
        }
    }
    assert(input@.skip(n as int) =~= Seq::<u8>::empty());
    assert(out@ =~= b64url_encode(input@));
    string_of(out.as_slice())
}

/// Decodes unpadded URL-safe base64; fails on a character outside the alphabet.
pub fn base64_url_decode(input: &str) -> (r: Result<Vec<u8>, ()>)
    ensures
        match r {
            Ok(v) => b64url_decode(input@) == Some(v@),
            Err(_) => b64url_decode(input@) is None,
        },
{
    let chars = chars_of(input);
    let n = chars.len();
    let mut out: Vec<u8> = Vec::new();
    let mut i: usize = 0;
    assert(chars@.skip(0) =~= chars@);
    while i < n
        invariant
            n == chars@.len(),
            chars@ == input@,
            i <= n,
            b64url_decode(chars@) == match b64url_decode(chars@.skip(i as int)) {
                Some(rest) => Some(out@ + rest),
                None => None::<Seq<u8>>,
            },
        decreases n - i,
    {
        let ghost rest = chars@.skip(i as int);
        let c0 = match b64url_val_exec(chars[i]) {
            Some(v) => v,
            None => {
                assert(!group_valid(rest));
                return Err(());
            },
        };
        let c1 = if n - i > 1 {
            match b64url_val_exec(chars[i + 1]) {
                Some(v) => v,
                None => {
                    assert(rest[1] == chars@[i + 1]);
                    assert(b64url_val(rest[1]) is None);
                    assert(!group_valid(rest));
                    return Err(());
                },
            }
        } else {
            0
        };
        let c2 = if n - i > 2 {
            match b64url_val_exec(chars[i + 2]) {
                Some(v) => v,
                None => {
                    assert(rest[2] == chars@[i + 2]);
                    assert(b64url_val(rest[2]) is None);
                    assert(!group_valid(rest));
                    return Err(());
                },
            }
        } else {
            0
        };
        let c3 = if n - i > 3 {
            match b64url_val_exec(chars[i + 3]) {
                Some(v) => v,
                None => {
                    assert(rest[3] == chars@[i + 3]);
                    assert(b64url_val(rest[3]) is None);
                    assert(!group_valid(rest));
                    return Err(());
                },
            }
        } else {
            0
        };
        proof {
            assert(group_valid(rest));
            assert(c0 == group_val(rest, 0));
            assert(c1 == group_val(rest, 1));
            assert(c2 == group_val(rest, 2));
            assert(c3 == group_val(rest, 3));
            assert(c0 < 64 && c1 < 64 && c2 < 64 && c3 < 64);
        }
        let triple = (c0 << 18) | (c1 << 12) | (c2 << 6) | c3;
        let ghost before = out@;
        out.push(((triple >> 16) & 0xFF) as u8);
        if n - i > 2 {
            out.push(((triple >> 8) & 0xFF) as u8);
        }
        if n - i > 3 {
            out.push((triple & 0xFF) as u8);
        }
        proof {
            assert(out@ =~= before + b64url_group_bytes(rest));
            if rest.len() > 4 {
                assert(rest.skip(4) =~= chars@.skip(i + 4));
            }
        }
        i = if n - i > 4 { i + 4 } else { n };
        proof {
            if i == n {
                assert(chars@.skip(n as int) =~= Seq::<char>::empty());
                assert(out@ + Seq::<u8>::empty() =~= out@);
            }
        }
    }
    assert(chars@.skip(n as int) =~= Seq::<char>::empty());
    assert(out@ + Seq::<u8>::empty() =~= out@);
    Ok(out)
}

proof fn lemma_b64url_char_val(i: int)
    requires
        0 <= i < 64,
    ensures
        b64url_val(b64url_char(i)) == Some(i as u32),
{
    if i < 26 {
        assert(((65 + i) as char) as u32 == 65 + i);
    } else if i < 52 {
        assert(((97 + i - 26) as char) as u32 == 97 + i - 26);
    } else if i < 62 {
        assert(((48 + i - 52) as char) as u32 == 48 + i - 52);
    }
}

proof fn lemma_group_roundtrip(s: Seq<u8>, tail: Seq<char>)
    requires
        1 <= s.len(),
        s.len() < 3 ==> tail.len() == 0,
    ensures
        group_valid(b64url_group(s) + tail),
        b64url_group_bytes(b64url_group(s) + tail) == s.take(if s.len() < 3 { s.len() as int } else { 3 }),
        b64url_group(s).len() == (if s.len() < 3 { s.len() as int } else { 3 }) + 1,
{
    let b0 = s[0];
    let b1 = if s.len() > 1 { s[1] } else { 0u8 };
    let b2 = if s.len() > 2 { s[2] } else { 0u8 };
    let t = pack3(b0, b1, b2);
    let x0 = (t >> 18) & 63;
    let x1 = (t >> 12) & 63;
    let x2 = (t >> 6) & 63;
    let x3 = t & 63;
    lemma_sextets_bounded(t);
    lemma_b64url_char_val(x0 as int);
    lemma_b64url_char_val(x1 as int);
    lemma_b64url_char_val(x2 as int);
    lemma_b64url_char_val(x3 as int);
    let g = b64url_group(s);
    let cs = g + tail;
    assert(cs[0] == b64url_char(x0 as int));
    assert(cs[1] == b64url_char(x1 as int));
    if s.len() > 1 {
        assert(cs[2] == b64url_char(x2 as int));
    }
    if s.len() > 2 {
        assert(cs[3] == b64url_char(x3 as int));
    }
    assert(group_valid(cs));
    let u = pack4(x0, x1, x2, x3);
    assert(pack4(x0, x1, x2, x3) == t && ((t >> 16) & 255) as u8 == b0 && ((t >> 8) & 255) as u8
        == b1 && (t & 255) as u8 == b2) by (bit_vector)
        requires
            t == ((b0 as u32) << 16) | ((b1 as u32) << 8) | (b2 as u32),
            x0 == (t >> 18) & 63,
            x1 == (t >> 12) & 63,
            x2 == (t >> 6) & 63,
            x3 == t & 63,
    ;
    assert((((pack4(x0, x1, x2, 0) >> 16) & 255) as u8 == b0 && ((pack4(x0, x1, x2, 0) >> 8)
        & 255) as u8 == b1 && ((pack4(x0, x1, 0, 0) >> 16) & 255) as u8 == b0)) by (bit_vector)
        requires
            t == ((b0 as u32) << 16) | ((b1 as u32) << 8) | (b2 as u32),
            x0 == (t >> 18) & 63,
            x1 == (t >> 12) & 63,
            x2 == (t >> 6) & 63,
    ;
    assert(b64url_group_bytes(cs) =~= s.take(if s.len() < 3 { s.len() as int } else { 3 }));
}

/// Decoding an encoding gives back the original bytes.
/// No character of the alphabet is a dot.
proof fn lemma_b64url_char_not_dot(i: int)
    requires
        0 <= i < 64,
    ensures
        b64url_char(i) != '.',
{
}

/// URL-safe base64 never holds a dot.
pub proof fn lemma_b64url_no_dot(s: Seq<u8>)
    ensures
        !b64url_encode(s).contains('.'),
    decreases s.len(),
{
    if s.len() > 0 {
        let b0 = s[0];
        let b1 = if s.len() > 1 { s[1] } else { 0u8 };
        let b2 = if s.len() > 2 { s[2] } else { 0u8 };
        let t = pack3(b0, b1, b2);
        lemma_sextets_bounded(t);
        lemma_b64url_char_not_dot(((t >> 18) & 63) as int);
        lemma_b64url_char_not_dot(((t >> 12) & 63) as int);
        lemma_b64url_char_not_dot(((t >> 6) & 63) as int);
        lemma_b64url_char_not_dot((t & 63) as int);
        let g = b64url_group(s);
        assert(!g.contains('.')) by {
            assert forall|k: int| 0 <= k < g.len() implies g[k] != '.' by {}
        }
        if s.len() > 3 {
            lemma_b64url_no_dot(s.skip(3));
            let r = b64url_encode(s.skip(3));
            assert forall|k: int| 0 <= k < (g + r).len() implies (g + r)[k] != '.' by {
                if k < g.len() {
                    assert((g + r)[k] == g[k]);
                } else {
                    assert((g + r)[k] == r[k - g.len()]);
                }
            }
        }
    }
}

pub proof fn lemma_b64url_roundtrip(s: Seq<u8>)
    ensures
        b64url_decode(b64url_encode(s)) == Some(s),
    decreases s.len(),
{
    if s.len() == 0 {
    } else if s.len() <= 3 {
        lemma_group_roundtrip(s, Seq::empty());
        assert(b64url_group(s) + Seq::<char>::empty() =~= b64url_group(s));
        assert(s.take(s.len() as int) =~= s);
    } else {
        let rest = b64url_encode(s.skip(3));
        lemma_b64url_roundtrip(s.skip(3));
        lemma_group_roundtrip(s, rest);
        let cs = b64url_encode(s);
        assert(cs == b64url_group(s) + rest);
        assert(cs.skip(4) =~= rest);
        assert(s.take(3) + s.skip(3) =~= s);
    }
}

} // verus!
