use orb::handshake::{
    hello_message, hello_sender_name, listener_reply, local_name, parse_hello, reply_accepted,
    reply_text_accepted, request_accepted, TCP_PORT,
};
use orb::transfer::{
    confirmation_reply, confirmation_text_accepted, decode_u32_be, decode_u64_be, encode_u32_be,
    encode_u64_be, file_name_of, length_prefixed, metadata_message, offer_bytes, offer_text,
    receive_accepted, received_file_name, transfer_confirmed, transfer_header,
};

#[test]
fn hello_and_its_reading() {
    let h = hello_message("id1", "host-user");
    assert_eq!(h, "HELLO|id1|host-user|SEND");
    assert_eq!(parse_hello(h.as_bytes()), Some("host-user".to_string()));
    assert_eq!(hello_sender_name("HELLO|id"), None);
    assert_eq!(hello_sender_name("a|b|"), Some(String::new()));
    assert_eq!(parse_hello(b""), None);
    assert_eq!(parse_hello(&[b'a', b'|', b'b', b'|', 0xff]), Some("\u{fffd}".to_string()));
    assert_eq!(TCP_PORT, 34255);
    assert_eq!(parse_hello("HELLO|é|ü|SEND".as_bytes()), Some("ü".to_string()));
}

#[test]
fn replies_and_their_reading() {
    let ok = listener_reply(true, "me", "box-bob");
    assert_eq!(ok, "OK|me|box-bob");
    let no = listener_reply(false, "me", "box-bob");
    assert_eq!(no, "REJECTED|me|box-bob");
    assert!(reply_accepted(ok.as_bytes()));
    assert!(!reply_accepted(no.as_bytes()));
    assert!(!reply_accepted(b""));
    assert!(!reply_accepted(b"OK"));
    assert!(!reply_accepted(&[0xff, b'O', b'K', b'|']));
    assert!(reply_text_accepted("OK|"));
}

#[test]
fn request_prompt_answers() {
    assert!(request_accepted("y\n"));
    assert!(request_accepted("  Y "));
    assert!(!request_accepted("yes"));
    assert!(!request_accepted("n"));
    assert!(!request_accepted(""));
    assert_eq!(local_name("box", "bob"), "box-bob");
}

#[test]
fn big_endian_values() {
    assert_eq!(encode_u32_be(0x0102_0304), [1, 2, 3, 4]);
    assert_eq!(decode_u32_be([1, 2, 3, 4]), 0x0102_0304);
    assert_eq!(encode_u64_be(0x0102_0304_0506_0708), [1, 2, 3, 4, 5, 6, 7, 8]);
    assert_eq!(decode_u64_be([0xff; 8]), u64::MAX);
    for x in [0u32, 1, 255, 256, u32::MAX] {
        assert_eq!(decode_u32_be(encode_u32_be(x)), x);
        assert_eq!(encode_u32_be(x), x.to_be_bytes());
    }
    for x in [0u64, 1, 1 << 40, u64::MAX] {
        assert_eq!(decode_u64_be(encode_u64_be(x)), x);
    }
}

#[test]
fn metadata_and_framing() {
    let m = metadata_message("a.txt", 1024);
    assert_eq!(m, "File Name: a.txt, File size: 1024");
    let f = length_prefixed(m.as_bytes());
    assert_eq!(&f[..4], &(m.len() as u32).to_be_bytes());
    assert_eq!(&f[4..], m.as_bytes());
    assert_eq!(length_prefixed(b""), vec![0, 0, 0, 0]);
}

#[test]
fn transfer_header_readback() {
    let h = transfer_header(5000, b"photo.png");
    assert_eq!(h.len(), 12 + 9);
    let mut size = [0u8; 8];
    size.copy_from_slice(&h[..8]);
    assert_eq!(decode_u64_be(size), 5000);
    let mut len = [0u8; 4];
    len.copy_from_slice(&h[8..12]);
    assert_eq!(decode_u32_be(len), 9);
    assert_eq!(&h[12..], b"photo.png");
}

#[test]
fn confirmations() {
    assert!(transfer_confirmed(b"y"));
    assert!(transfer_confirmed(b"yes"));
    assert!(!transfer_confirmed(b"n"));
    assert!(!transfer_confirmed(b""));
    assert!(!transfer_confirmed(b"Y"));
    assert!(confirmation_text_accepted("y"));
    assert!(receive_accepted(" y \n"));
    assert!(!receive_accepted("Y"));
    assert!(!receive_accepted("yy"));
    assert_eq!(confirmation_reply(true), "y");
    assert_eq!(confirmation_reply(false), "n");
    assert!(transfer_confirmed(confirmation_reply(true).as_bytes()));
    assert!(!transfer_confirmed(confirmation_reply(false).as_bytes()));
}

#[test]
fn file_names_like_std_path() {
    let cases = [
        "/a/b.txt", "b.txt", "dir/", "/", "", "a/..", "a/.", ".", "./x", "..", "a//b", "/a/b/", "x/./",
        "...", "a/.../", ".hidden", "//",
    ];
    for c in cases {
        let expected = std::path::Path::new(c).file_name().map(|n| n.to_string_lossy().to_string());
        assert_eq!(file_name_of(c), expected, "path {:?}", c);
    }
    assert_eq!(file_name_of("/home/u/report.pdf"), Some("report.pdf".to_string()));
    assert_eq!(file_name_of("a/.."), None);
}

#[test]
fn offer_is_length_then_metadata() {
    let o = offer_bytes("a.txt", 7);
    let meta = b"File Name: a.txt, File size: 7";
    let mut len = [0u8; 4];
    len.copy_from_slice(&o[..4]);
    assert_eq!(decode_u32_be(len) as usize, meta.len());
    assert_eq!(&o[4..], &meta[..]);
    assert_eq!(offer_text(&o[4..]), "File Name: a.txt, File size: 7");
}

#[test]
fn received_names_are_decoded() {
    assert_eq!(received_file_name(b"photo.png"), "photo.png");
    assert_eq!(received_file_name(&[b'a', 0xff]), "a\u{fffd}");
    assert_eq!(received_file_name("ü.txt".as_bytes()), "ü.txt");
}

#[test]
fn handshake_bytes_roundtrip() {
    for accepted in [true, false] {
        let reply = listener_reply(accepted, "id", "n");
        assert_eq!(reply_accepted(reply.as_bytes()), accepted);
    }
    let hello = hello_message("x", "box-ann");
    assert_eq!(parse_hello(hello.as_bytes()), Some("box-ann".to_string()));
}
