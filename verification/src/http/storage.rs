use vstd::prelude::*;

use crate::crypto::{ct_eq_bytes, hex_bytes, hmac_sha256, hmac_sha256_bytes, push_hex_bytes, sha256, sha256_bytes};
use crate::text::{
    char_vecs, chars_equal, chars_of, copy_chars, join_with, lemma_split_at_char_nonempty,
    lemma_split_at_char_pieces, lemma_split_join, nat_decimal, push_joined_chars, push_str,
    push_u64_decimal, split_at_char, split_char, string_of, chars_starts_with, parse_usize,
    spec_parse_usize, starts_with,
};
use vstd::utf8::encode_utf8;

verus! {

/// `s` with every backslash turned into a slash.
pub open spec fn slashes(s: Seq<char>) -> Seq<char> {
    Seq::new(s.len(), |i: int| if s[i] == '\\' { '/' } else { s[i] })
}

/// A path segment that is kept: not empty, not `.` and not `..`.
pub open spec fn keep_segment(seg: Seq<char>) -> bool {
    seg.len() > 0 && seg != seq!['.'] && seg != seq!['.', '.']
}

/// The kept segments, in order.
pub open spec fn kept_segments(p: Seq<Seq<char>>) -> Seq<Seq<char>> {
    p.filter(|seg: Seq<char>| keep_segment(seg))
}

/// A storage path with backslashes read as slashes and the empty, `.` and `..` segments
/// dropped, its segments joined with `/`.
pub open spec fn spec_sanitize(path: Seq<char>) -> Seq<char> {
    join_with(kept_segments(split_at_char(slashes(path), '/')), seq!['/'])
}

/// Normalizes an object path so that it cannot climb out of its bucket.
pub fn sanitize_object_path(path: &str) -> (r: String)
    ensures
        r@ == spec_sanitize(path@),
{
    let cs = chars_of(path);
    let mut norm: Vec<char> = Vec::new();
    let mut i: usize = 0;
    while i < cs.len()
        invariant
            i <= cs@.len(),
            cs@ == path@,
            norm@ == slashes(path@).subrange(0, i as int),
        decreases cs@.len() - i,
    {
        let c = cs[i];
        norm.push(if c == '\\' { '/' } else { c });
        i = i + 1;
        assert(norm@ =~= slashes(path@).subrange(0, i as int));
    }
    assert(norm@ =~= slashes(path@));
    let pieces = split_char(norm.as_slice(), '/');
    let ghost pv = split_at_char(slashes(path@), '/');
    assert(char_vecs(pieces@) =~= pv);
    let mut kept: Vec<Vec<char>> = Vec::new();
    let dot = chars_of(".");
    let dotdot = chars_of("..");
    proof {
        reveal_strlit(".");
        reveal_strlit("..");
        assert(dot@ =~= seq!['.']);
        assert(dotdot@ =~= seq!['.', '.']);
    }
    let mut j: usize = 0;
    assert(pv.subrange(0, 0) =~= Seq::<Seq<char>>::empty());
    assert(char_vecs(kept@) =~= kept_segments(pv.subrange(0, 0)));
    while j < pieces.len()
        invariant
            j <= pieces@.len(),
            pv == char_vecs(pieces@),
            dot@ == seq!['.'],
            dotdot@ == seq!['.', '.'],
            char_vecs(kept@) == kept_segments(pv.subrange(0, j as int)),
        decreases pieces@.len() - j,
    {
        let seg = pieces[j].as_slice();
        let keep = seg.len() > 0 && !chars_equal(seg, dot.as_slice()) && !chars_equal(
            seg,
            dotdot.as_slice(),
        );
        let ghost before = char_vecs(kept@);
        proof {
            assert(pv.subrange(0, j as int).push(seg@) =~= pv.subrange(0, j + 1));
            pv.subrange(0, j as int).lemma_filter_push(seg@, |s: Seq<char>| keep_segment(s));
        }
        if keep {
            kept.push(copy_chars(seg));
            assert(char_vecs(kept@) =~= before.push(seg@));
        }
        j = j + 1;
    }
    assert(pv.subrange(0, pv.len() as int) =~= pv);
    let mut out: Vec<char> = Vec::new();
    push_joined_chars(&mut out, &kept, '/');
    assert(out@ =~= spec_sanitize(path@));
    string_of(out.as_slice())
}

proof fn lemma_kept_pieces(path: Seq<char>)
    ensures
        forall|i: int|
            0 <= i < kept_segments(split_at_char(slashes(path), '/')).len() ==> {
                let seg = #[trigger] kept_segments(split_at_char(slashes(path), '/'))[i];
                keep_segment(seg) && !seg.contains('/') && !seg.contains('\\')
            },
{
    let s = slashes(path);
    let pieces = split_at_char(s, '/');
    let kept = kept_segments(pieces);
    lemma_split_at_char_pieces(s, '/');
    assert forall|i: int| 0 <= i < kept.len() implies {
        let seg = #[trigger] kept[i];
        keep_segment(seg) && !seg.contains('/') && !seg.contains('\\')
    } by {
        let seg = kept[i];
        pieces.filter_lemma(|x: Seq<char>| keep_segment(x));
        assert(kept.contains(seg));
        pieces.lemma_filter_contains_rev(|x: Seq<char>| keep_segment(x), seg);
        assert(pieces.contains(seg));
        let k = choose|k: int| 0 <= k < pieces.len() && pieces[k] == seg;
        if seg.contains('/') {
            let m = choose|m: int| 0 <= m < seg.len() && seg[m] == '/';
            assert(pieces[k][m] == '/');
        }
        if seg.contains('\\') {
            let m = choose|m: int| 0 <= m < seg.len() && seg[m] == '\\';
            assert(pieces[k][m] == '\\');
            assert(s.contains('\\'));
            let q = choose|q: int| 0 <= q < s.len() && s[q] == '\\';
        }
    }
}

/// A sanitized path is empty or made of segments that are neither empty, `.` nor `..`,
/// with no backslash in it.
pub proof fn lemma_sanitize_no_traversal(path: Seq<char>)
    ensures
        spec_sanitize(path).len() == 0 || forall|i: int|
            0 <= i < split_at_char(spec_sanitize(path), '/').len() ==> keep_segment(
                #[trigger] split_at_char(spec_sanitize(path), '/')[i],
            ),
        !spec_sanitize(path).contains('\\'),
{
    let kept = kept_segments(split_at_char(slashes(path), '/'));
    lemma_kept_pieces(path);
    if kept.len() > 0 {
        lemma_split_join(kept, '/');
    } else {
        assert(spec_sanitize(path) =~= Seq::<char>::empty());
    }
    lemma_join_no_char(kept, '/', '\\');
}

proof fn lemma_join_no_char(parts: Seq<Seq<char>>, sep: char, c: char)
    requires
        sep != c,
        forall|i: int| 0 <= i < parts.len() ==> !(#[trigger] parts[i]).contains(c),
    ensures
        !join_with(parts, seq![sep]).contains(c),
    decreases parts.len(),
{
    if parts.len() > 1 {
        let init = parts.drop_last();
        assert forall|i: int| 0 <= i < init.len() implies !(#[trigger] init[i]).contains(c) by {
            assert(init[i] == parts[i]);
        }
        lemma_join_no_char(init, sep, c);
        let j = join_with(parts, seq![sep]);
        assert(!parts[parts.len() - 1].contains(c));
        if j.contains(c) {
            let k = choose|k: int| 0 <= k < j.len() && j[k] == c;
            let a = join_with(init, seq![sep]);
            if k < a.len() {
                assert(a[k] == c);
            } else if k == a.len() {
                assert(j[k] == sep);
            } else {
                assert(parts.last()[k - a.len() - 1] == c);
            }
        }
    } else if parts.len() == 1 {
        assert(!parts[0].contains(c));
    }
}

/// Sanitizing a sanitized path changes nothing.
pub proof fn lemma_sanitize_idempotent(path: Seq<char>)
    ensures
        spec_sanitize(spec_sanitize(path)) == spec_sanitize(path),
{
    let s1 = spec_sanitize(path);
    let kept = kept_segments(split_at_char(slashes(path), '/'));
    lemma_sanitize_no_traversal(path);
    assert(slashes(s1) =~= s1) by {
        assert forall|i: int| 0 <= i < s1.len() implies s1[i] != '\\' by {
            if s1[i] == '\\' {
                assert(s1.contains('\\'));
            }
        }
    }
    lemma_kept_pieces(path);
    if kept.len() > 0 {
        lemma_split_join(kept, '/');
        assert forall|i: int| 0 <= i < kept.len() implies keep_segment(#[trigger] kept[i]) by {}
        lemma_filter_all(kept);
    } else {
        assert(s1 =~= Seq::<char>::empty());
        assert(split_at_char(s1, '/') =~= seq![Seq::<char>::empty()]);
        let p = seq![Seq::<char>::empty()];
        assert(p.drop_last() =~= Seq::<Seq<char>>::empty());
        assert(kept_segments(p) =~= Seq::<Seq<char>>::empty()) by {
            reveal_with_fuel(Seq::filter, 2);
        }
    }
}

proof fn lemma_filter_all(s: Seq<Seq<char>>)
    requires
        forall|i: int| 0 <= i < s.len() ==> keep_segment(#[trigger] s[i]),
    ensures
        kept_segments(s) == s,
    decreases s.len(),
{
    if s.len() > 0 {
        let init = s.drop_last();
        assert forall|i: int| 0 <= i < init.len() implies keep_segment(#[trigger] init[i]) by {
            assert(init[i] == s[i]);
        }
        lemma_filter_all(init);
        init.lemma_filter_push(s.last(), |seg: Seq<char>| keep_segment(seg));
        assert(keep_segment(s[s.len() - 1]));
        assert(init.push(s.last()) =~= s);
    } else {
        assert(kept_segments(s) =~= s);
    }
}

/// The text signed for a download link: bucket, key and expiry joined with `:`.
pub open spec fn download_payload(bucket: Seq<char>, key: Seq<char>, expires_at: u64) -> Seq<char> {
    bucket + seq![':'] + key + seq![':'] + nat_decimal(expires_at as nat)
}

/// The download token: the hexadecimal HMAC-SHA-256 of the payload's UTF-8 bytes.
pub open spec fn download_token(bucket: Seq<char>, key: Seq<char>, expires_at: u64, secret: Seq<u8>) -> Seq<char> {
    hex_bytes(hmac_sha256(secret, encode_utf8(download_payload(bucket, key, expires_at))))
}

/// Signs a time-limited download link for `bucket`/`key`.
pub fn sign_download_token(bucket: &str, key: &str, expires_at: u64, secret: &[u8]) -> (r: String)
    ensures
        r@ == download_token(bucket@, key@, expires_at, secret@),
{
    let mut payload: Vec<char> = Vec::new();
    push_str(&mut payload, bucket);
    payload.push(':');
    push_str(&mut payload, key);
    payload.push(':');
    push_u64_decimal(&mut payload, expires_at);
    assert(payload@ =~= download_payload(bucket@, key@, expires_at));
    let text = string_of(payload.as_slice());
    let tag = hmac_sha256_bytes(secret, text.as_str().as_bytes());
    let mut out: Vec<char> = Vec::new();
    push_hex_bytes(&mut out, tag.as_slice());
    assert(out@ =~= download_token(bucket@, key@, expires_at, secret@));
    string_of(out.as_slice())
}

/// Whether a download link is valid at `now`: not expired and carrying the right token.
pub open spec fn download_valid(
    bucket: Seq<char>,
    key: Seq<char>,
    expires_at: u64,
    token: Seq<char>,
    secret: Seq<u8>,
    now: u64,
) -> bool {
    expires_at > now && encode_utf8(token) == encode_utf8(download_token(bucket, key, expires_at, secret))
}

/// Checks a download link at time `now` (seconds), comparing tokens in constant time.
pub fn verify_download_signature_at(
    bucket: &str,
    key: &str,
    expires_at: u64,
    token: &str,
    secret: &[u8],
    now: u64,
) -> (b: bool)
    ensures
        b == download_valid(bucket@, key@, expires_at, token@, secret@, now),
{
    if expires_at <= now {
        return false;
    }
    let expected = sign_download_token(bucket, key, expires_at, secret);
    ct_eq_bytes(token.as_bytes(), expected.as_str().as_bytes())
}

/// Checks a download link against the clock.
pub fn verify_download_signature(bucket: &str, key: &str, expires_at: u64, token: &str, secret: &[u8]) -> (b: bool)
    ensures
        exists|now: u64| b == #[trigger] download_valid(bucket@, key@, expires_at, token@, secret@, now),
{
    let now = crate::time::now_secs();
    verify_download_signature_at(bucket, key, expires_at, token, secret, now)
}

/// A link signed with a secret verifies with that secret until it expires.
pub proof fn lemma_signed_link_verifies(bucket: Seq<char>, key: Seq<char>, expires_at: u64, secret: Seq<u8>, now: u64)
    requires
        now < expires_at,
    ensures
        download_valid(bucket, key, expires_at, download_token(bucket, key, expires_at, secret), secret, now),
{
}

/// The entity tag of an object: the hex SHA-256 digest of its bytes, in double quotes.
pub open spec fn spec_etag(bytes: Seq<u8>) -> Seq<char> {
    seq!['"'] + hex_bytes(sha256(bytes)) + seq!['"']
}

/// The entity tag of an object's bytes.
pub fn object_etag(bytes: &[u8]) -> (r: String)
    ensures
        r@ == spec_etag(bytes@),
{
    let d = sha256_bytes(bytes);
    let mut out: Vec<char> = Vec::new();
    out.push('"');
    push_hex_bytes(&mut out, d.as_slice());
    out.push('"');
    assert(out@ =~= spec_etag(bytes@));
    string_of(out.as_slice())
}

/// The bytes a `Range: bytes=start-end` header asks for, as an inclusive `(start, end)`
/// within an object of `total` bytes: a missing or unreadable start reads 0, a missing end
/// or one past the object the last byte; none when there is no such header or it asks for
/// nothing inside the object.
pub open spec fn spec_byte_range(header: Option<Seq<char>>, total: nat) -> Option<(nat, nat)> {
    match header {
        None => None,
        Some(h) => if !starts_with(h, "bytes="@) {
            None
        } else {
            let parts = split_at_char(h.subrange(6, h.len() as int), '-');
            let last: nat = if total >= 1 {
                (total - 1) as nat
            } else {
                0
            };
            let start: nat = match spec_parse_usize(parts[0]) {
                Some(n) => n as nat,
                None => 0,
            };
            let end: nat = if parts.len() > 1 && parts[1].len() > 0 {
                let e: nat = match spec_parse_usize(parts[1]) {
                    Some(n) => n as nat,
                    None => last,
                };
                if e < last {
                    e
                } else {
                    last
                }
            } else {
                last
            };
            if start < total && start <= end {
                Some((start, end))
            } else {
                None
            }
        },
    }
}

/// The byte range a `Range` header asks of an object of `total` bytes, if any.
pub fn byte_range(header: Option<&str>, total: usize) -> (r: Option<(usize, usize)>)
    ensures
        match spec_byte_range(
            match header {
                Some(h) => Some(h@),
                None => None,
            },
            total as nat,
        ) {
            Some((a, b)) => r == Some((a as usize, b as usize)),
            None => r is None,
        },
{
    let h = match header {
        Some(h) => chars_of(h),
        None => {
            return None;
        },
    };
    let prefix = chars_of("bytes=");
    proof {
        reveal_strlit("bytes=");
    }
    if !chars_starts_with(h.as_slice(), prefix.as_slice()) {
        return None;
    }
    let rest = h.as_slice().split_at(6).1;
    assert(rest@ =~= h@.subrange(6, h@.len() as int));
    let parts = split_char(rest, '-');
    proof {
        lemma_split_at_char_nonempty(rest@, '-');
    }
    let last = total.saturating_sub(1);
    let start = match parse_usize(string_of(parts[0].as_slice()).as_str()) {
        Some(n) => n,
        None => 0,
    };
    let end = if parts.len() > 1 && parts[1].len() > 0 {
        let e = match parse_usize(string_of(parts[1].as_slice()).as_str()) {
            Some(n) => n,
            None => last,
        };
        if e < last {
            e
        } else {
            last
        }
    } else {
        last
    };
    if start < total && start <= end {
        Some((start, end))
    } else {
        None
    }
}

/// The `Content-Range` of a partial object: `bytes start-end/total`.
pub open spec fn spec_bytes_content_range(start: nat, end: nat, total: nat) -> Seq<char> {
    "bytes "@ + nat_decimal(start) + "-"@ + nat_decimal(end) + "/"@ + nat_decimal(total)
}

/// The `Content-Range` of a partial object.
pub fn bytes_content_range(start: usize, end: usize, total: usize) -> (r: String)
    ensures
        r@ == spec_bytes_content_range(start as nat, end as nat, total as nat),
{
    let mut out: Vec<char> = Vec::new();
    push_str(&mut out, "bytes ");
    push_u64_decimal(&mut out, start as u64);
    push_str(&mut out, "-");
    push_u64_decimal(&mut out, end as u64);
    push_str(&mut out, "/");
    push_u64_decimal(&mut out, total as u64);
    string_of(out.as_slice())
}

} // verus!
