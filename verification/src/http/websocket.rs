use vstd::prelude::*;
use vstd::utf8::encode_utf8;

use crate::bytes::append_bytes;
use crate::encoding::{lemma_sextets_bounded_pub, pack3};
use crate::http::sha1::{sha1_digest, spec_sha1, u64_be_bytes};
use crate::text::{chars_of, push_str, spec_trim, string_of, trim_chars};

verus! {

/// The standard base64 alphabet: `A-Z`, `a-z`, `0-9`, `+`, `/`.
pub open spec fn b64_char(i: int) -> char {
    if i < 26 {
        (65 + i) as char
    } else if i < 52 {
        (97 + i - 26) as char
    } else if i < 62 {
        (48 + i - 52) as char
    } else if i == 62 {
        '+'
    } else {
        '/'
    }
}

/// The four characters of one group of up to three bytes, padded with '='.
pub open spec fn b64_group(s: Seq<u8>) -> Seq<char> {
    let b0 = s[0];
    let b1 = if s.len() > 1 { s[1] } else { 0u8 };
    let b2 = if s.len() > 2 { s[2] } else { 0u8 };
    let t = pack3(b0, b1, b2);
    seq![
        b64_char(((t >> 18) & 63) as int),
        b64_char(((t >> 12) & 63) as int),
        if s.len() > 1 { b64_char(((t >> 6) & 63) as int) } else { '=' },
        if s.len() > 2 { b64_char((t & 63) as int) } else { '=' },
    ]
}

/// Padded standard base64 (RFC 4648) of a byte string.
pub open spec fn b64_encode(s: Seq<u8>) -> Seq<char>
    decreases s.len(),
{
    if s.len() == 0 {
        Seq::empty()
    } else if s.len() <= 3 {
        b64_group(s)
    } else {
        b64_group(s) + b64_encode(s.skip(3))
    }
}

fn b64_char_exec(i: u32) -> (c: char)
    requires
        i < 64,
    ensures
        c == b64_char(i as int),
{
    if i < 26 {
        (65 + i as u8) as char
    } else if i < 52 {
        (97 + (i - 26) as u8) as char
    } else if i < 62 {
        (48 + (i - 52) as u8) as char
    } else if i == 62 {
        '+'
    } else {
        '/'
    }
}

/// Padded standard base64 encoding.
pub fn base64_encode(input: &[u8]) -> (out: String)
    ensures
        out@ == b64_encode(input@),
{
    let mut out: Vec<char> = Vec::new();
    let n = input.len();
    let mut i: usize = 0;
    assert(input@.skip(0) =~= input@);
    while i < n
        invariant
            n == input@.len(),
            i <= n,
            out@ + b64_encode(input@.skip(i as int)) == b64_encode(input@),
        decreases n - i,
    {
        let ghost rest = input@.skip(i as int);
        let b0 = input[i] as u32;
        let b1 = if n - i > 1 { input[i + 1] as u32 } else { 0 };
        let b2 = if n - i > 2 { input[i + 2] as u32 } else { 0 };
        let triple = (b0 << 16) | (b1 << 8) | b2;
        proof {
            let r1 = if rest.len() > 1 { rest[1] } else { 0u8 };
            let r2 = if rest.len() > 2 { rest[2] } else { 0u8 };
            assert(triple == pack3(rest[0], r1, r2));
            lemma_sextets_bounded_pub(triple);
        }
        let ghost before = out@;
        out.push(b64_char_exec((triple >> 18) & 63));
        out.push(b64_char_exec((triple >> 12) & 63));
        if n - i > 1 {
            out.push(b64_char_exec((triple >> 6) & 63));
        } else {
            out.push('=');
        }
        if n - i > 2 {
            out.push(b64_char_exec(triple & 63));
        } else {
            out.push('=');
        }
        proof {
            assert(out@ =~= before + b64_group(rest));
            if rest.len() > 3 {
                assert(rest.skip(3) =~= input@.skip(i + 3));
            }
        }
        i = if n - i > 3 { i + 3 } else { n };
        proof {
            if i == n {
                assert(input@.skip(n as int) =~= Seq::<u8>::empty());
            }
        }
    }
    assert(input@.skip(n as int) =~= Seq::<u8>::empty());
    assert(out@ =~= b64_encode(input@));
    string_of(out.as_slice())
}

/// The GUID that RFC 6455 appends to the client key.
pub open spec fn websocket_guid() -> Seq<char> {
    "258EAFA5-E914-47DA-95CA-C5AB0DC85B11"@
}

/// The `Sec-WebSocket-Accept` value for a client key: base64 of the SHA-1 of
/// the trimmed key followed by the protocol GUID.
pub open spec fn spec_websocket_accept(key: Seq<char>) -> Seq<char> {
    b64_encode(spec_sha1(encode_utf8(spec_trim(key) + websocket_guid())))
}

/// Computes the `Sec-WebSocket-Accept` header value for a handshake key.
pub fn generate_websocket_accept(key: &str) -> (r: String)
    requires
        encode_utf8(spec_trim(key@) + websocket_guid()).len() * 8 < 0x1_0000_0000_0000_0000,
    ensures
        r@ == spec_websocket_accept(key@),
{
    let key_chars = chars_of(key);
    let mut combined = trim_chars(key_chars.as_slice());
    push_str(&mut combined, "258EAFA5-E914-47DA-95CA-C5AB0DC85B11");
    let combined = string_of(combined.as_slice());
    let digest = sha1_digest(combined.as_str().as_bytes());
    base64_encode(&digest)
}

/// The header of a server text frame for a payload of `len` bytes.
pub open spec fn frame_length_header(len: int) -> Seq<u8> {
    if len < 126 {
        seq![len as u8]
    } else if len <= 65535 {
        seq![126u8, (len / 256) as u8, (len % 256) as u8]
    } else {
        seq![127u8] + u64_be_bytes(len as u64)
    }
}

/// A final, unmasked text frame carrying `payload`.
pub open spec fn text_frame(payload: Seq<u8>) -> Seq<u8> {
    seq![0x81u8] + frame_length_header(payload.len() as int) + payload
}

/// Encodes `text` as a single final, unmasked WebSocket text frame.
pub fn encode_text_frame(text: &str) -> (frame: Vec<u8>)
    ensures
        frame@ == text_frame(encode_utf8(text@)),
{
    let payload = text.as_bytes();
    let len = payload.len();
    let mut frame: Vec<u8> = Vec::new();
    frame.push(0x81);
    if len < 126 {
        frame.push(len as u8);
    } else if len <= 65535 {
        frame.push(126);
        frame.push((len / 256) as u8);
        frame.push((len % 256) as u8);
    } else {
        frame.push(127);
        let l = len as u64;
        frame.push((l >> 56) as u8);
        frame.push((l >> 48) as u8);
        frame.push((l >> 40) as u8);
        frame.push((l >> 32) as u8);
        frame.push((l >> 24) as u8);
        frame.push((l >> 16) as u8);
        frame.push((l >> 8) as u8);
        frame.push(l as u8);
    }
    append_bytes(&mut frame, payload);
    assert(frame@ =~= text_frame(encode_utf8(text@)));
    frame
}

/// The big-endian 64-bit value of `b[off..off + 8]`.
pub open spec fn be64(b: Seq<u8>, off: int) -> u64 {
    ((b[off] as u64) << 56) | ((b[off + 1] as u64) << 48) | ((b[off + 2] as u64) << 40) | ((b[off
        + 3] as u64) << 32) | ((b[off + 4] as u64) << 24) | ((b[off + 5] as u64) << 16) | ((b[off
        + 6] as u64) << 8) | (b[off + 7] as u64)
}

/// The frame header fields: opcode, payload length and where the payload starts
/// (after the extended length and the masking key), and the masking key.
pub open spec fn frame_header(buf: Seq<u8>) -> Option<(u8, int, int, Option<Seq<u8>>)> {
    if buf.len() < 2 {
        None
    } else {
        let opcode = buf[0] & 0x0F;
        let masked = (buf[1] & 0x80) != 0;
        let len7 = (buf[1] & 0x7F) as int;
        let ext = if len7 == 126 {
            if buf.len() < 4 {
                None
            } else {
                Some((buf[2] as int * 256 + buf[3] as int, 4int))
            }
        } else if len7 == 127 {
            if buf.len() < 10 {
                None
            } else {
                Some((be64(buf, 2) as usize as int, 10int))
            }
        } else {
            Some((len7, 2int))
        };
        match ext {
            None => None,
            Some((plen, cur)) => if masked {
                if buf.len() < cur + 4 {
                    None
                } else {
                    Some((opcode, plen, cur + 4, Some(buf.subrange(cur, cur + 4))))
                }
            } else {
                Some((opcode, plen, cur, None))
            },
        }
    }
}

/// The frame at the start of `buf`: opcode, unmasked payload and bytes consumed;
/// `None` while the buffer holds less than a whole frame.
pub open spec fn spec_decode_frame(buf: Seq<u8>) -> Option<(u8, Seq<u8>, int)> {
    match frame_header(buf) {
        None => None,
        Some((opcode, plen, cur, mask)) => if buf.len() < cur + plen {
            None
        } else {
            let raw = buf.subrange(cur, cur + plen);
            Some(
                (
                    opcode,
                    match mask {
                        None => raw,
                        Some(m) => Seq::new(raw.len(), |i: int| raw[i] ^ m[i % 4]),
                    },
                    cur + plen,
                ),
            )
        },
    }
}

/// Decodes the frame at the start of `buf`, or `None` if it is not complete yet.
pub fn decode_frame(buf: &[u8]) -> (r: Option<(u8, Vec<u8>, usize)>)
    requires
        frame_header(buf@) matches Some((_, plen, cur, _)) ==> cur + plen <= usize::MAX,
    ensures
        match r {
            Some((op, payload, used)) => spec_decode_frame(buf@) == Some(
                (op, payload@, used as int),
            ),
            None => spec_decode_frame(buf@) is None,
        },
{
    if buf.len() < 2 {
        return None;
    }
    let opcode = buf[0] & 0x0F;
    let masked = (buf[1] & 0x80) != 0;
    let mut payload_len = (buf[1] & 0x7F) as usize;
    let mut cursor: usize = 2;

    if payload_len == 126 {
        if buf.len() < cursor + 2 {
            return None;
        }
        payload_len = (buf[2] as usize) * 256 + (buf[3] as usize);
        cursor = cursor + 2;
    } else if payload_len == 127 {
        if buf.len() < cursor + 8 {
            return None;
        }
        let v = ((buf[2] as u64) << 56) | ((buf[3] as u64) << 48) | ((buf[4] as u64) << 40) | ((
        buf[5] as u64) << 32) | ((buf[6] as u64) << 24) | ((buf[7] as u64) << 16) | ((buf[8] as u64)
            << 8) | (buf[9] as u64);
        payload_len = v as usize;
        cursor = cursor + 8;
    }
    let mut mask: [u8; 4] = [0, 0, 0, 0];
    if masked {
        if buf.len() < cursor + 4 {
            return None;
        }
        mask = [buf[cursor], buf[cursor + 1], buf[cursor + 2], buf[cursor + 3]];
        cursor = cursor + 4;
    }
    assert(frame_header(buf@) matches Some((_, plen, cur, _)) && plen == payload_len && cur
        == cursor);
    if buf.len() < cursor + payload_len {
        return None;
    }
    let mut payload: Vec<u8> = Vec::with_capacity(payload_len);
    let mut i: usize = 0;
    let ghost raw = buf@.subrange(cursor as int, cursor + payload_len);
    let bl = buf.len();
    while i < payload_len
        invariant
            bl == buf@.len(),
            cursor + payload_len <= buf@.len(),
            raw == buf@.subrange(cursor as int, cursor + payload_len),
            i <= payload_len,
            payload@.len() == i,
            forall|j: int|
                0 <= j < i ==> #[trigger] payload@[j] == if masked {
                    raw[j] ^ mask@[j % 4]
                } else {
                    raw[j]
                },
        decreases payload_len - i,
    {
        let b = buf[cursor + i];
        if masked {
            payload.push(b ^ mask[i % 4]);
        } else {
            payload.push(b);
        }
        i = i + 1;
    }
    proof {
        match frame_header(buf@) {
            Some((op, plen, cur, m)) => {
                if masked {
                    assert(m == Some(mask@));
                    assert(payload@ =~= Seq::new(raw.len(), |k: int| raw[k] ^ mask@[k % 4]));
                } else {
                    assert(payload@ =~= raw);
                }
            },
            None => {},
        }
    }
    Some((opcode, payload, cursor + payload_len))
}

/// Decoding a text frame gives back opcode 1, the payload and the frame length.
pub proof fn lemma_text_frame_roundtrip(payload: Seq<u8>)
    requires
        payload.len() <= usize::MAX - 10,
    ensures
        spec_decode_frame(text_frame(payload)) == Some(
            (1u8, payload, text_frame(payload).len() as int),
        ),
{
    let f = text_frame(payload);
    let len = payload.len() as int;
    assert(f[0] == 0x81u8);
    assert((0x81u8 & 0x0F) == 1u8) by (bit_vector);
    if len < 126 {
        let b = len as u8;
        assert(f[1] == b);
        assert((b & 0x80) == 0 && (b & 0x7F) == b) by (bit_vector)
            requires
                b < 126,
        ;
        assert(f.subrange(2, 2 + len) =~= payload);
    } else if len <= 65535 {
        assert(f[1] == 126u8);
        assert((126u8 & 0x80) == 0 && (126u8 & 0x7F) == 126) by (bit_vector);
        assert(f[2] as int * 256 + f[3] as int == len);
        assert(f.subrange(4, 4 + len) =~= payload);
    } else {
        assert(f[1] == 127u8);
        assert((127u8 & 0x80) == 0 && (127u8 & 0x7F) == 127) by (bit_vector);
        let v = len as u64;
        assert(be64(f, 2) == v) by {
            let bs = u64_be_bytes(v);
            assert(f[2] == bs[0] && f[3] == bs[1] && f[4] == bs[2] && f[5] == bs[3]);
            assert(f[6] == bs[4] && f[7] == bs[5] && f[8] == bs[6] && f[9] == bs[7]);
            assert((((v >> 56) as u8 as u64) << 56) | (((v >> 48) as u8 as u64) << 48) | (((v
                >> 40) as u8 as u64) << 40) | (((v >> 32) as u8 as u64) << 32) | (((v >> 24) as u8
                as u64) << 24) | (((v >> 16) as u8 as u64) << 16) | (((v >> 8) as u8 as u64) << 8)
                | (v as u8 as u64) == v) by (bit_vector);
        }
        assert(f.subrange(10, 10 + len) =~= payload);
    }
}


/// The header read from the start of a buffer stays the same when more bytes follow.
proof fn lemma_header_prefix(buf: Seq<u8>, y: Seq<u8>)
    requires
        frame_header(buf) is Some,
        buf.len() <= y.len(),
        y.subrange(0, buf.len() as int) == buf,
    ensures
        frame_header(y) == frame_header(buf),
{
    assert forall|i: int| 0 <= i < buf.len() implies y[i] == buf[i] by {
        assert(y.subrange(0, buf.len() as int)[i] == y[i]);
    }
    if buf.len() >= 10 {
        assert(be64(y, 2) == be64(buf, 2)) by {
            assert(y[2] == buf[2] && y[3] == buf[3] && y[4] == buf[4] && y[5] == buf[5]);
            assert(y[6] == buf[6] && y[7] == buf[7] && y[8] == buf[8] && y[9] == buf[9]);
        }
    }
    if let Some((_, _, cur, Some(_))) = frame_header(buf) {
        assert(y.subrange(cur - 4, cur) =~= buf.subrange(cur - 4, cur));
    }
}

/// A buffer that starts with a whole frame decodes to that frame, whatever follows it; and
/// no shorter start of it decodes at all.
pub proof fn lemma_decode_frame_prefix(buf: Seq<u8>, x: Seq<u8>, k: int)
    requires
        spec_decode_frame(buf) is Some,
    ensures
        spec_decode_frame(buf + x) == spec_decode_frame(buf),
        0 <= k < spec_decode_frame(buf).unwrap().2 ==> spec_decode_frame(buf.subrange(0, k)) is None,
{
    let y = buf + x;
    assert(y.subrange(0, buf.len() as int) =~= buf);
    lemma_header_prefix(buf, y);
    if let Some((_, plen, cur, _)) = frame_header(buf) {
        assert(y.subrange(cur, cur + plen) =~= buf.subrange(cur, cur + plen));
        if 0 <= k < cur + plen && k <= buf.len() {
            let t = buf.subrange(0, k);
            if frame_header(t) is Some {
                assert(buf.subrange(0, t.len() as int) =~= t);
                lemma_header_prefix(t, buf);
            }
        }
    }
}

} // verus!
