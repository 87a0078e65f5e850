use chocobase::http::sha1::sha1_digest;
use chocobase::http::websocket::{
    base64_encode, decode_frame, encode_text_frame, generate_websocket_accept,
};

fn hex(bytes: &[u8]) -> String {
    bytes.iter().map(|b| format!("{b:02x}")).collect()
}

#[test]
fn sha1_of_known_messages() {
    assert_eq!(hex(&sha1_digest(b"abc")), "a9993e364706816aba3e25717850c26c9cd0d89d");
    assert_eq!(hex(&sha1_digest(b"")), "da39a3ee5e6b4b0d3255bfef95601890afd80709");
    let long = vec![b'a'; 1000];
    assert_eq!(hex(&sha1_digest(&long)), "291e9a6c66994949b57ba5e650361e98fc36b1ba");
}

#[test]
fn base64_pads_partial_groups() {
    assert_eq!(base64_encode(b"Man"), "TWFu");
    assert_eq!(base64_encode(b"Ma"), "TWE=");
    assert_eq!(base64_encode(b"M"), "TQ==");
    assert_eq!(base64_encode(b""), "");
    assert_eq!(base64_encode(&[0xfb, 0xff]), "+/8=");
}

#[test]
fn websocket_accept_matches_rfc_example() {
    assert_eq!(
        generate_websocket_accept("dGhlIHNhbXBsZSBub25jZQ=="),
        "s3pPLMBiTxaQ9kYGzzhZRbK+xOo="
    );
    assert_eq!(
        generate_websocket_accept("  dGhlIHNhbXBsZSBub25jZQ==\r\n"),
        "s3pPLMBiTxaQ9kYGzzhZRbK+xOo="
    );
}

#[test]
fn text_frame_roundtrips_through_decoder() {
    for len in [0usize, 5, 125, 126, 300, 65535, 65536, 70000] {
        let text: String = "x".repeat(len);
        let frame = encode_text_frame(&text);
        let (op, payload, used) = decode_frame(&frame).unwrap();
        assert_eq!(op, 1);
        assert_eq!(payload, text.as_bytes());
        assert_eq!(used, frame.len());
    }
}

#[test]
fn short_frame_header_layout() {
    assert_eq!(encode_text_frame("hi"), vec![0x81, 2, b'h', b'i']);
    let f = encode_text_frame(&"a".repeat(200));
    assert_eq!(&f[..4], &[0x81, 126, 0, 200]);
}

#[test]
fn masked_client_frame_is_unmasked() {
    let mask = [1u8, 2, 3, 4];
    let data = b"Hello";
    let mut frame = vec![0x81, 0x80 | data.len() as u8];
    frame.extend_from_slice(&mask);
    for (i, b) in data.iter().enumerate() {
        frame.push(b ^ mask[i % 4]);
    }
    let (op, payload, used) = decode_frame(&frame).unwrap();
    assert_eq!(op, 1);
    assert_eq!(payload, data);
    assert_eq!(used, frame.len());
}

#[test]
fn incomplete_frames_decode_to_none() {
    assert_eq!(decode_frame(&[0x81]), None);
    assert_eq!(decode_frame(&[0x81, 5, b'a']), None);
    assert_eq!(decode_frame(&[0x81, 126, 0]), None);
    assert_eq!(decode_frame(&[0x81, 0x85, 1, 2]), None);
}
