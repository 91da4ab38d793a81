use gdb_flash::client::GdbClient;
use gdb_flash::codec::{
    checksum, escape_binary, frame_packet, hex_digit_of, needs_escape, push_hex, unescape_binary,
};
use gdb_flash::transport::MockTransport;

#[test]
fn checksum_of_ok_is_9a() {
    assert_eq!(checksum(b"OK"), 0x9a);
    assert_eq!(GdbClient::<MockTransport>::checksum(b"OK"), 0x9a);
}

#[test]
fn checksum_wraps() {
    assert_eq!(checksum(b""), 0);
    assert_eq!(checksum(&[0xff, 0x01]), 0x00);
    assert_eq!(checksum(&[0x80, 0x80, 0x01]), 0x01);
    let long = vec![0xffu8; 1000];
    assert_eq!(checksum(&long), ((1000u32 * 0xff) % 256) as u8);
}

#[test]
fn special_bytes_are_the_four() {
    for b in 0..=255u8 {
        assert_eq!(needs_escape(b), matches!(b, b'#' | b'$' | b'*' | b'}'), "{}", b);
    }
}

#[test]
fn escape_replaces_special_bytes() {
    assert_eq!(escape_binary(b""), b"");
    assert_eq!(escape_binary(b"abc"), b"abc");
    assert_eq!(
        escape_binary(&[b'$', b'#', b'*', b'}']),
        vec![b'}', 0x04, b'}', 0x03, b'}', 0x0a, b'}', 0x5d]
    );
    assert_eq!(escape_binary(b"a}b"), vec![b'a', b'}', 0x5d, b'b']);
    assert_eq!(
        GdbClient::<MockTransport>::escape_binary(b"x$"),
        vec![b'x', b'}', 0x04]
    );
}

#[test]
fn escape_then_unescape_gives_the_data_back() {
    let all: Vec<u8> = (0..=255u8).collect();
    assert_eq!(unescape_binary(&escape_binary(&all)), Some(all.clone()));
    let mut twice = all.clone();
    twice.extend(all.iter().rev());
    assert_eq!(unescape_binary(&escape_binary(&twice)), Some(twice));
    assert_eq!(unescape_binary(&escape_binary(b"")), Some(vec![]));
    let specials = [b'}', b'}', b'#', b'$', b'*', b'}'];
    assert_eq!(unescape_binary(&escape_binary(&specials)), Some(specials.to_vec()));
}

#[test]
fn escape_keeps_the_length_of_plain_data() {
    let plain: Vec<u8> = (0..=255u8).filter(|b| !needs_escape(*b)).collect();
    assert_eq!(escape_binary(&plain), plain);
    let all: Vec<u8> = (0..=255u8).collect();
    assert_eq!(escape_binary(&all).len(), 256 + 4);
}

#[test]
fn unescape_refuses_what_is_not_escaped_data() {
    assert_eq!(unescape_binary(b"#"), None);
    assert_eq!(unescape_binary(b"a$b"), None);
    assert_eq!(unescape_binary(b"*"), None);
    assert_eq!(unescape_binary(b"abc}"), None);
    assert_eq!(unescape_binary(&[b'}', b'a']), None);
    assert_eq!(unescape_binary(&[b'}', 0x5d, b'}']), None);
    assert_eq!(unescape_binary(&[b'}', 0x5d]), Some(vec![b'}']));
}

#[test]
fn unescape_then_escape_gives_the_wire_form_back() {
    let wire = vec![b'a', b'}', 0x03, b'b', b'}', 0x5d, b'}', 0x04, b'}', 0x0a];
    let data = unescape_binary(&wire).unwrap();
    assert_eq!(data, b"a#b}$*");
    assert_eq!(escape_binary(&data), wire);
}

#[test]
fn hex_digits_are_lowercase() {
    let digits: Vec<u8> = (0..16u8).map(hex_digit_of).collect();
    assert_eq!(digits, b"0123456789abcdef");
}

#[test]
fn push_hex_writes_without_leading_zeros() {
    for (n, text) in [
        (0u128, "0"),
        (9, "9"),
        (10, "a"),
        (0x10, "10"),
        (0x0800_0000, "8000000"),
        (0xdead_beef, "deadbeef"),
        (u64::MAX as u128, "ffffffffffffffff"),
        (u128::MAX, "ffffffffffffffffffffffffffffffff"),
    ] {
        let mut out = b"x".to_vec();
        push_hex(&mut out, n);
        assert_eq!(out, format!("x{}", text).into_bytes());
        assert_eq!(format!("x{:x}", n).into_bytes(), out);
    }
}

#[test]
fn frame_wraps_the_body() {
    assert_eq!(frame_packet(b"OK"), b"$OK#9a");
    assert_eq!(frame_packet(b""), b"$#00");
    assert_eq!(frame_packet(&[0x01]), b"$\x01#01");
    assert_eq!(MockTransport::rsp_packet(b"vFlashDone"), frame_packet(b"vFlashDone"));
    let body = [0xffu8, 0xff, 0x10];
    let framed = frame_packet(&body);
    assert_eq!(&framed[1..4], &body);
    assert_eq!(&framed[4..], format!("#{:02x}", checksum(&body)).as_bytes());
}
