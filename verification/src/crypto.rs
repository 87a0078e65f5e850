use hmac::{Hmac, Mac};
use sha2::{Digest, Sha256, Sha512};
use subtle::ConstantTimeEq;
use vstd::prelude::*;

verus! {

/// The HMAC-SHA-256 tag of `data` under `key`.
pub uninterp spec fn hmac_sha256(key: Seq<u8>, data: Seq<u8>) -> Seq<u8>;

/// The SHA-256 digest of `data`.
pub uninterp spec fn sha256(data: Seq<u8>) -> Seq<u8>;

/// The SHA-512 digest of `data`.
pub uninterp spec fn sha512(data: Seq<u8>) -> Seq<u8>;

/// HMAC-SHA-256 of `data` under `key` with the `hmac` and `sha2` crates: a MAC made with
/// `Mac::new_from_slice`, fed `data` with `Mac::update`, read out with `Mac::finalize`.
/// The tag is 32 bytes. `new_from_slice` of `Hmac` accepts keys of every length, so its
/// error arm is never taken.
#[verifier::external_body]
pub fn hmac_sha256_bytes(key: &[u8], data: &[u8]) -> (r: Vec<u8>)
    ensures
        r@ == hmac_sha256(key@, data@),
        r@.len() == 32,
{
    match <Hmac<Sha256> as Mac>::new_from_slice(key) {
        Ok(mut mac) => {
            mac.update(data);
            mac.finalize().into_bytes().to_vec()
        },
        Err(_) => Vec::new(),
    }
}

/// The SHA-256 digest of `data` (`sha2::Sha256::digest`), 32 bytes.
#[verifier::external_body]
pub fn sha256_bytes(data: &[u8]) -> (r: Vec<u8>)
    ensures
        r@ == sha256(data@),
        r@.len() == 32,
{
    Sha256::digest(data).to_vec()
}

/// The SHA-512 digest of `data` (`sha2::Sha512::digest`), 64 bytes.
#[verifier::external_body]
pub fn sha512_bytes(data: &[u8]) -> (r: Vec<u8>)
    ensures
        r@ == sha512(data@),
        r@.len() == 64,
{
    Sha512::digest(data).to_vec()
}

/// Constant-time comparison of byte slices (`subtle::ConstantTimeEq::ct_eq`): equal
/// exactly when the lengths agree and every byte does.
#[verifier::external_body]
pub fn ct_eq_bytes(a: &[u8], b: &[u8]) -> (r: bool)
    ensures
        r == (a@ == b@),
{
    a.ct_eq(b).into()
}

/// Fills `buf` from the system's random source (`getrandom::getrandom`). The bytes are
/// not stated; a failure leaves them as they were, and the length never changes.
#[verifier::external_body]
pub fn fill_random(buf: &mut Vec<u8>)
    ensures
        final(buf)@.len() == old(buf)@.len(),
{
    let _ = getrandom::getrandom(buf.as_mut_slice());
}

/// A lowercase hexadecimal digit.
pub open spec fn hex_nibble(d: int) -> char {
    if d < 10 {
        (48 + d) as char
    } else {
        (87 + d) as char
    }
}

/// Two lowercase hexadecimal digits per byte (`{:02x}` for each).
pub open spec fn hex_bytes(b: Seq<u8>) -> Seq<char>
    decreases b.len(),
{
    if b.len() == 0 {
        Seq::empty()
    } else {
        hex_bytes(b.drop_last()) + seq![hex_nibble((b.last() / 16) as int), hex_nibble((b.last() % 16) as int)]
    }
}

fn nibble_char(d: u8) -> (c: char)
    requires
        d < 16,
    ensures
        c == hex_nibble(d as int),
{
    if d < 10 {
        (48 + d) as char
    } else {
        (87 + d) as char
    }
}

/// Appends two lowercase hexadecimal digits per byte.
pub fn push_hex_bytes(out: &mut Vec<char>, b: &[u8])
    ensures
        final(out)@ == old(out)@ + hex_bytes(b@),
{
    let ghost start = out@;
    let mut i: usize = 0;
    assert(b@.subrange(0, 0) =~= Seq::<u8>::empty());
    assert(out@ =~= start + hex_bytes(b@.subrange(0, 0)));
    while i < b.len()
        invariant
            i <= b@.len(),
            out@ == start + hex_bytes(b@.subrange(0, i as int)),
        decreases b@.len() - i,
    {
        let x = b[i];
        let ghost sub = b@.subrange(0, i + 1);
        assert(sub.drop_last() =~= b@.subrange(0, i as int));
        out.push(nibble_char(x / 16));
        out.push(nibble_char(x % 16));
        i = i + 1;
        assert(out@ =~= start + hex_bytes(sub));
    }
    assert(b@.subrange(0, b@.len() as int) =~= b@);
}

/// Lowercase hexadecimal of bytes.
pub fn hex_encode(b: &[u8]) -> (s: String)
    ensures
        s@ == hex_bytes(b@),
{
    let mut out: Vec<char> = Vec::new();
    push_hex_bytes(&mut out, b);
    assert(out@ =~= hex_bytes(b@));
    crate::text::string_of(out.as_slice())
}

} // verus!
