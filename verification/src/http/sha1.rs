use vstd::prelude::*;
use vstd::wrapping::u32_specs::wrapping_add;

verus! {

/// Rotation of a 32-bit word left by `n` bits, `0 < n < 32`.
pub open spec fn rotl(x: u32, n: u32) -> u32 {
    (x << n) | (x >> ((32 - n) as u32))
}

/// The big-endian 32-bit word made of `b[off..off + 4]`.
pub open spec fn be32(b: Seq<u8>, off: int) -> u32 {
    ((b[off] as u32) << 24) | ((b[off + 1] as u32) << 16) | ((b[off + 2] as u32) << 8) | (b[off
        + 3] as u32)
}

/// The eight big-endian bytes of a 64-bit value.
pub open spec fn u64_be_bytes(v: u64) -> Seq<u8> {
    seq![
        (v >> 56) as u8,
        (v >> 48) as u8,
        (v >> 40) as u8,
        (v >> 32) as u8,
        (v >> 24) as u8,
        (v >> 16) as u8,
        (v >> 8) as u8,
        v as u8,
    ]
}

/// The four big-endian bytes of a 32-bit value.
pub open spec fn u32_be_bytes(v: u32) -> Seq<u8> {
    seq![(v >> 24) as u8, (v >> 16) as u8, (v >> 8) as u8, v as u8]
}

/// Number of zero bytes SHA-1 padding inserts after the 0x80 marker.
pub open spec fn sha1_zero_count(len: int) -> int {
    (119 - len % 64) % 64
}

/// SHA-1 message padding: a 0x80 byte, zeros up to 56 mod 64, then the bit length.
pub open spec fn sha1_pad(m: Seq<u8>) -> Seq<u8> {
    m + seq![0x80u8] + Seq::new(sha1_zero_count(m.len() as int) as nat, |i: int| 0u8)
        + u64_be_bytes((m.len() * 8) as u64)
}

/// Word `i` of the message schedule of the 64-byte block at `off`.
pub open spec fn sha1_w(msg: Seq<u8>, off: int, i: int) -> u32
    decreases i,
{
    if i < 16 {
        be32(msg, off + 4 * i)
    } else if i < 80 {
        rotl(
            sha1_w(msg, off, i - 3) ^ sha1_w(msg, off, i - 8) ^ sha1_w(msg, off, i - 14) ^ sha1_w(
                msg,
                off,
                i - 16,
            ),
            1,
        )
    } else {
        0
    }
}

/// The round function and constant of round `i`.
pub open spec fn sha1_fk(i: int, b: u32, c: u32, d: u32) -> (u32, u32) {
    if i < 20 {
        ((b & c) | ((!b) & d), 0x5A827999u32)
    } else if i < 40 {
        (b ^ c ^ d, 0x6ED9EBA1u32)
    } else if i < 60 {
        ((b & c) | (b & d) | (c & d), 0x8F1BBCDCu32)
    } else {
        (b ^ c ^ d, 0xCA62C1D6u32)
    }
}

/// The five working variables.
pub type Sha1State = (u32, u32, u32, u32, u32);

/// One compression round.
pub open spec fn sha1_round(s: Sha1State, i: int, w: u32) -> Sha1State {
    let (a, b, c, d, e) = s;
    let (f, k) = sha1_fk(i, b, c, d);
    let temp = wrapping_add(
        wrapping_add(wrapping_add(wrapping_add(rotl(a, 5), f), e), k),
        w,
    );
    (temp, a, rotl(b, 30), c, d)
}

/// The working variables after the first `i` rounds over the block at `off`.
pub open spec fn sha1_rounds(h: Sha1State, msg: Seq<u8>, off: int, i: int) -> Sha1State
    decreases i,
{
    if i <= 0 {
        h
    } else {
        sha1_round(sha1_rounds(h, msg, off, i - 1), i - 1, sha1_w(msg, off, i - 1))
    }
}

/// The chaining value after compressing the block at `off`.
pub open spec fn sha1_compress(h: Sha1State, msg: Seq<u8>, off: int) -> Sha1State {
    let r = sha1_rounds(h, msg, off, 80);
    (
        wrapping_add(h.0, r.0),
        wrapping_add(h.1, r.1),
        wrapping_add(h.2, r.2),
        wrapping_add(h.3, r.3),
        wrapping_add(h.4, r.4),
    )
}

/// The chaining value after the first `n` blocks of a padded message.
pub open spec fn sha1_blocks(msg: Seq<u8>, n: int) -> Sha1State
    decreases n,
{
    if n <= 0 {
        (0x67452301u32, 0xEFCDAB89u32, 0x98BADCFEu32, 0x10325476u32, 0xC3D2E1F0u32)
    } else {
        sha1_compress(sha1_blocks(msg, n - 1), msg, 64 * (n - 1))
    }
}

/// The SHA-1 digest (FIPS 180-4) of a message.
pub open spec fn spec_sha1(m: Seq<u8>) -> Seq<u8> {
    let p = sha1_pad(m);
    let h = sha1_blocks(p, p.len() as int / 64);
    u32_be_bytes(h.0) + u32_be_bytes(h.1) + u32_be_bytes(h.2) + u32_be_bytes(h.3) + u32_be_bytes(
        h.4,
    )
}

fn rotl_exec(x: u32, n: u32) -> (r: u32)
    requires
        0 < n < 32,
    ensures
        r == rotl(x, n),
{
    (x << n) | (x >> (32 - n))
}

proof fn lemma_pad_step(l: int, j: int)
    requires
        0 <= l,
        0 <= j <= sha1_zero_count(l),
    ensures
        ((l + 1 + j) % 64 == 56) == (j == sha1_zero_count(l)),
        0 <= sha1_zero_count(l) < 64,
{
    assert(l == 64 * (l / 64) + l % 64);
}

/// SHA-1 digest of `data`.
pub fn sha1_digest(data: &[u8]) -> (out: [u8; 20])
    requires
        data@.len() * 8 < 0x1_0000_0000_0000_0000,
    ensures
        out@ == spec_sha1(data@),
{
    let mut h0: u32 = 0x67452301;
    let mut h1: u32 = 0xEFCDAB89;
    let mut h2: u32 = 0x98BADCFE;
    let mut h3: u32 = 0x10325476;
    let mut h4: u32 = 0xC3D2E1F0;

    let bit_len = (data.len() as u64) * 8;
    let mut msg: Vec<u8> = Vec::new();
    crate::bytes::append_bytes(&mut msg, data);
    msg.push(0x80);
    let ghost l = data@.len() as int;
    let ghost mut j: int = 0;
    proof {
        lemma_pad_step(l, 0);
    }
    assert(msg@ =~= data@ + seq![0x80u8] + Seq::new(0 as nat, |i: int| 0u8));
    while msg.len() % 64 != 56
        invariant
            0 <= j <= sha1_zero_count(l),
            l == data@.len(),
            msg@ == data@ + seq![0x80u8] + Seq::new(j as nat, |i: int| 0u8),
            ((l + 1 + j) % 64 == 56) == (j == sha1_zero_count(l)),
        decreases sha1_zero_count(l) - j,
    {
        assert(msg@.len() == l + 1 + j);
        msg.push(0);
        proof {
            j = j + 1;
            lemma_pad_step(l, j);
        }
        assert(msg@ =~= data@ + seq![0x80u8] + Seq::new(j as nat, |i: int| 0u8));
    }
    assert(j == sha1_zero_count(l));
    let ghost before_len = msg@;
    msg.push((bit_len >> 56) as u8);
    msg.push((bit_len >> 48) as u8);
    msg.push((bit_len >> 40) as u8);
    msg.push((bit_len >> 32) as u8);
    msg.push((bit_len >> 24) as u8);
    msg.push((bit_len >> 16) as u8);
    msg.push((bit_len >> 8) as u8);
    msg.push(bit_len as u8);
    assert(msg@ =~= sha1_pad(data@));
    let ghost p = msg@;
    let nblocks = msg.len() / 64;
    let mut blk: usize = 0;
    while blk < nblocks
        invariant
            p == msg@,
            p.len() <= usize::MAX,
            nblocks == p.len() / 64,
            blk <= nblocks,
            (h0, h1, h2, h3, h4) == sha1_blocks(p, blk as int),
        decreases nblocks - blk,
    {
        proof {
            assert(blk * 64 + 64 <= nblocks * 64) by (nonlinear_arith)
                requires
                    blk < nblocks,
            ;
            assert(nblocks * 64 <= p.len());
        }
        let base = blk * 64;
        let mut w: Vec<u32> = Vec::with_capacity(80);
        let mut i: usize = 0;
        while i < 16
            invariant
                p == msg@,
                base + 64 <= p.len(),
                base == 64 * blk,
                i <= 16,
                w@.len() == i,
                forall|k: int| 0 <= k < i ==> #[trigger] w@[k] == sha1_w(p, base as int, k),
            decreases 16 - i,
        {
            let v = ((msg[base + i * 4] as u32) << 24) | ((msg[base + i * 4 + 1] as u32) << 16) | ((
            msg[base + i * 4 + 2] as u32) << 8) | (msg[base + i * 4 + 3] as u32);
            w.push(v);
            i = i + 1;
        }
        while i < 80
            invariant
                p == msg@,
                base == 64 * blk,
                16 <= i <= 80,
                w@.len() == i,
                forall|k: int| 0 <= k < i ==> #[trigger] w@[k] == sha1_w(p, base as int, k),
            decreases 80 - i,
        {
            let x = w[i - 3] ^ w[i - 8] ^ w[i - 14] ^ w[i - 16];
            w.push(rotl_exec(x, 1));
            i = i + 1;
        }
        let mut a = h0;
        let mut b = h1;
        let mut c = h2;
        let mut d = h3;
        let mut e = h4;
        let mut r: usize = 0;
        while r < 80
            invariant
                w@.len() == 80,
                forall|k: int| 0 <= k < 80 ==> #[trigger] w@[k] == sha1_w(p, base as int, k),
                r <= 80,
                (a, b, c, d, e) == sha1_rounds((h0, h1, h2, h3, h4), p, base as int, r as int),
            decreases 80 - r,
        {
            let (f, k) = if r < 20 {
                ((b & c) | ((!b) & d), 0x5A827999u32)
            } else if r < 40 {
                (b ^ c ^ d, 0x6ED9EBA1u32)
            } else if r < 60 {
                ((b & c) | (b & d) | (c & d), 0x8F1BBCDCu32)
            } else {
                (b ^ c ^ d, 0xCA62C1D6u32)
            };
            let temp = rotl_exec(a, 5).wrapping_add(f).wrapping_add(e).wrapping_add(k).wrapping_add(
                w[r],
            );
            e = d;
            d = c;
            c = rotl_exec(b, 30);
            b = a;
            a = temp;
            r = r + 1;
        }
        h0 = h0.wrapping_add(a);
        h1 = h1.wrapping_add(b);
        h2 = h2.wrapping_add(c);
        h3 = h3.wrapping_add(d);
        h4 = h4.wrapping_add(e);
        blk = blk + 1;
    }
    let out = [
        (h0 >> 24) as u8,
        (h0 >> 16) as u8,
        (h0 >> 8) as u8,
        h0 as u8,
        (h1 >> 24) as u8,
        (h1 >> 16) as u8,
        (h1 >> 8) as u8,
        h1 as u8,
        (h2 >> 24) as u8,
        (h2 >> 16) as u8,
        (h2 >> 8) as u8,
        h2 as u8,
        (h3 >> 24) as u8,
        (h3 >> 16) as u8,
        (h3 >> 8) as u8,
        h3 as u8,
        (h4 >> 24) as u8,
        (h4 >> 16) as u8,
        (h4 >> 8) as u8,
        h4 as u8,
    ];
    assert(out@ =~= spec_sha1(data@));
    out
}

} // verus!
