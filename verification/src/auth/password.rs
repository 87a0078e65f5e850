use vstd::prelude::*;
use vstd::utf8::encode_utf8;

use crate::crypto::{fill_random, hex_bytes, hex_encode, hex_nibble, hmac_sha256, hmac_sha256_bytes, push_hex_bytes};
use crate::text::{
    chars_equal, chars_of, lemma_split_at_char_absent, lemma_split_at_char_concat, split_at_char, split_char,
    string_of,
};

verus! {

/// The number of HMAC rounds in a stored password hash.
pub const PBKDF2_ITERATIONS: u32 = 10000;

/// The number of random salt bytes of a new password hash.
pub const SALT_BYTES: usize = 16;

/// The `i`-th PBKDF2 round (from 1) for the first block of the key derived from
/// `password` and `salt` with HMAC-SHA-256: the first is the MAC of the salt followed by
/// the block number 1 (four bytes, big-endian); each later one the MAC of the one before.
pub open spec fn pbkdf2_round(password: Seq<u8>, salt: Seq<u8>, i: nat) -> Seq<u8>
    decreases i,
{
    if i <= 1 {
        hmac_sha256(password, salt + seq![0u8, 0u8, 0u8, 1u8])
    } else {
        hmac_sha256(password, pbkdf2_round(password, salt, (i - 1) as nat))
    }
}

/// Bytewise exclusive or of two byte strings of the first one's length.
pub open spec fn xor_bytes(a: Seq<u8>, b: Seq<u8>) -> Seq<u8> {
    Seq::new(a.len(), |k: int| a[k] ^ b[k])
}

/// PBKDF2-HMAC-SHA-256 of `password` and `salt` with `c` rounds, first 32-byte block:
/// the exclusive or of rounds 1 to `c`.
pub open spec fn pbkdf2_hmac_sha256(password: Seq<u8>, salt: Seq<u8>, c: nat) -> Seq<u8>
    decreases c,
{
    if c <= 1 {
        pbkdf2_round(password, salt, 1)
    } else {
        xor_bytes(pbkdf2_hmac_sha256(password, salt, (c - 1) as nat), pbkdf2_round(password, salt, c))
    }
}

fn xor_into(t: &Vec<u8>, u: &Vec<u8>) -> (r: Vec<u8>)
    requires
        t@.len() == u@.len(),
    ensures
        r@ == xor_bytes(t@, u@),
{
    let mut out: Vec<u8> = Vec::new();
    let mut k: usize = 0;
    while k < t.len()
        invariant
            k <= t@.len(),
            t@.len() == u@.len(),
            out@ == xor_bytes(t@, u@).subrange(0, k as int),
        decreases t@.len() - k,
    {
        out.push(t[k] ^ u[k]);
        k = k + 1;
        assert(out@ =~= xor_bytes(t@, u@).subrange(0, k as int));
    }
    assert(xor_bytes(t@, u@).subrange(0, t@.len() as int) =~= xor_bytes(t@, u@));
    out
}

/// PBKDF2-HMAC-SHA-256 with `c` rounds (at least one), 32 bytes.
pub fn pbkdf2_hmac_sha256_bytes(password: &[u8], salt: &[u8], c: u32) -> (r: Vec<u8>)
    requires
        c >= 1,
    ensures
        r@ == pbkdf2_hmac_sha256(password@, salt@, c as nat),
        r@.len() == 32,
{
    let mut block: Vec<u8> = Vec::new();
    let mut j: usize = 0;
    while j < salt.len()
        invariant
            j <= salt@.len(),
            block@ == salt@.subrange(0, j as int),
        decreases salt@.len() - j,
    {
        block.push(salt[j]);
        j = j + 1;
        assert(block@ =~= salt@.subrange(0, j as int));
    }
    block.push(0u8);
    block.push(0u8);
    block.push(0u8);
    block.push(1u8);
    assert(block@ =~= salt@ + seq![0u8, 0u8, 0u8, 1u8]);
    let mut u = hmac_sha256_bytes(password, block.as_slice());
    let mut t = u.clone();
    assert(t@ =~= u@);
    let mut i: u32 = 1;
    while i < c
        invariant
            1 <= i <= c,
            u@ == pbkdf2_round(password@, salt@, i as nat),
            t@ == pbkdf2_hmac_sha256(password@, salt@, i as nat),
            u@.len() == 32,
            t@.len() == 32,
        decreases c - i,
    {
        u = hmac_sha256_bytes(password, u.as_slice());
        t = xor_into(&t, &u);
        i = i + 1;
    }
    t
}

/// The stored form of `password` hashed with `salt`: the salt in hexadecimal, `$`, and in
/// hexadecimal the PBKDF2-HMAC-SHA-256 key of the password's UTF-8 bytes with the bytes of
/// that salt text, over `PBKDF2_ITERATIONS` rounds.
pub open spec fn salted_hash(salt: Seq<u8>, password: Seq<char>) -> Seq<char> {
    let s = hex_bytes(salt);
    s + seq!['$'] + hex_bytes(pbkdf2_hmac_sha256(encode_utf8(password), encode_utf8(s), PBKDF2_ITERATIONS as nat))
}

/// Hashes `password` with the given salt bytes.
pub fn hash_password_with_salt(password: &str, salt: &[u8]) -> (r: String)
    ensures
        r@ == salted_hash(salt@, password@),
{
    let salt_text = hex_encode(salt);
    let key = pbkdf2_hmac_sha256_bytes(password.as_bytes(), salt_text.as_str().as_bytes(), PBKDF2_ITERATIONS);
    let mut out: Vec<char> = chars_of(salt_text.as_str());
    out.push('$');
    push_hex_bytes(&mut out, key.as_slice());
    assert(out@ =~= salted_hash(salt@, password@));
    string_of(out.as_slice())
}

/// Hashes a password with a fresh salt of `SALT_BYTES` bytes from the system's random
/// source.
pub fn hash_password(password: &str) -> (r: String)
    ensures
        exists|salt: Seq<u8>| salt.len() == SALT_BYTES && r@ == salted_hash(salt, password@),
{
    let mut salt: Vec<u8> = vec![0u8; SALT_BYTES];
    fill_random(&mut salt);
    hash_password_with_salt(password, salt.as_slice())
}

/// Whether `stored` is a salt text, `$`, and the hexadecimal PBKDF2-HMAC-SHA-256 key of
/// `password` with that salt text.
pub open spec fn spec_verify_password(password: Seq<char>, stored: Seq<char>) -> bool {
    let parts = split_at_char(stored, '$');
    parts.len() == 2 && hex_bytes(
        pbkdf2_hmac_sha256(encode_utf8(password), encode_utf8(parts[0]), PBKDF2_ITERATIONS as nat),
    ) == parts[1]
}

/// Checks a password against its stored salted hash.
pub fn verify_password(password: &str, stored_hash: &str) -> (b: bool)
    ensures
        b == spec_verify_password(password@, stored_hash@),
{
    let cs = chars_of(stored_hash);
    let parts = split_char(cs.as_slice(), '$');
    if parts.len() != 2 {
        return false;
    }
    let salt = string_of(parts[0].as_slice());
    let key = pbkdf2_hmac_sha256_bytes(password.as_bytes(), salt.as_str().as_bytes(), PBKDF2_ITERATIONS);
    let mut computed: Vec<char> = Vec::new();
    push_hex_bytes(&mut computed, key.as_slice());
    assert(computed@ =~= hex_bytes(key@));
    chars_equal(computed.as_slice(), parts[1].as_slice())
}

/// Hexadecimal digits never include `$`.
pub proof fn lemma_hex_no_dollar(b: Seq<u8>)
    ensures
        !hex_bytes(b).contains('$'),
    decreases b.len(),
{
    if b.len() > 0 {
        lemma_hex_no_dollar(b.drop_last());
        let hi = (b.last() / 16) as int;
        let lo = (b.last() % 16) as int;
        assert(hex_nibble(hi) != '$' && hex_nibble(lo) != '$');
        let h = hex_bytes(b);
        assert forall|i: int| 0 <= i < h.len() implies h[i] != '$' by {
            if i < hex_bytes(b.drop_last()).len() {
                assert(h[i] == hex_bytes(b.drop_last())[i]);
            }
        }
    }
}

/// A password verifies against every hash made from it, whatever the salt.
pub proof fn lemma_hash_then_verify(password: Seq<char>, salt: Seq<u8>)
    ensures
        spec_verify_password(password, salted_hash(salt, password)),
{
    let s = hex_bytes(salt);
    let key = hex_bytes(pbkdf2_hmac_sha256(encode_utf8(password), encode_utf8(s), PBKDF2_ITERATIONS as nat));
    lemma_hex_no_dollar(salt);
    lemma_hex_no_dollar(pbkdf2_hmac_sha256(encode_utf8(password), encode_utf8(s), PBKDF2_ITERATIONS as nat));
    lemma_split_at_char_concat(s, key, '$');
    lemma_split_at_char_absent(s, '$');
    lemma_split_at_char_absent(key, '$');
    assert(split_at_char(salted_hash(salt, password), '$') =~= seq![s, key]);
}

} // verus!
