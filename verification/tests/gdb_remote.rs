use lib::gdb_remote::{
    checked_parse_stop_reply, hex_decode, hex_encode, parse_hex_bounded, parse_packet_size,
    parse_stop_reply, parse_stop_reply_text, parse_u64_hex, GdbError, StopKind,
};

fn protocol_message(e: GdbError) -> String {
    match e {
        GdbError::Protocol(m) => m,
        other => panic!("expected a protocol error, got {:?}", other),
    }
}

fn chars(s: &str) -> Vec<char> {
    s.chars().collect()
}

#[test]
fn parse_stop_variants() {
    let s = parse_stop_reply(b"S05").unwrap();
    assert_eq!(s.stop_kind, StopKind::Signal(5));
    assert_eq!(s.thread, None);

    let s = parse_stop_reply(b"T05thread:1;").unwrap();
    assert_eq!(s.stop_kind, StopKind::Signal(5));
    assert_eq!(s.thread, Some(1));

    let s = parse_stop_reply(b"T05thread:2;swbreak:;").unwrap();
    assert_eq!(s.stop_kind, StopKind::SwBreak);
    assert_eq!(s.thread, Some(2));

    let s = parse_stop_reply(b"T05hwbreak:;thread:1;").unwrap();
    assert_eq!(s.stop_kind, StopKind::HwBreak);
    assert_eq!(s.thread, Some(1));

    let s = parse_stop_reply(b"T05watch:1234abcd;thread:1;").unwrap();
    assert_eq!(
        s.stop_kind,
        StopKind::Watch { write: true, read: false, addr: Some(0x1234abcd) }
    );

    let s = parse_stop_reply(b"T05rwatch:10;thread:3;").unwrap();
    assert_eq!(
        s.stop_kind,
        StopKind::Watch { write: false, read: true, addr: Some(0x10) }
    );

    let s = parse_stop_reply(b"T05awatch:20;thread:3;").unwrap();
    assert_eq!(
        s.stop_kind,
        StopKind::Watch { write: true, read: true, addr: Some(0x20) }
    );
}

#[test]
fn stop_reply_errors() {
    assert_eq!(protocol_message(parse_stop_reply(b"").unwrap_err()), "empty stop reply");
    assert_eq!(protocol_message(parse_stop_reply(b"OK").unwrap_err()), "not a stop reply: OK");
    assert_eq!(protocol_message(parse_stop_reply(b"T0").unwrap_err()), "short stop reply: T0");
    assert_eq!(
        protocol_message(parse_stop_reply(b"Tzz").unwrap_err()),
        "bad signal in stop reply: Tzz"
    );
    assert_eq!(
        protocol_message(parse_stop_reply(b"T05thread:q;").unwrap_err()),
        "bad hex number: q"
    );
}

#[test]
fn stop_reply_thread_forms() {
    // multiprocess `p1.2`: last component
    assert_eq!(parse_stop_reply(b"T05thread:p1.2;").unwrap().thread, Some(2));
    // `0` means no particular thread; the leading `-` of `-1` is dropped
    // before that comparison, so it reads as thread 1
    assert_eq!(parse_stop_reply(b"T05thread:0;").unwrap().thread, None);
    assert_eq!(parse_stop_reply(b"T05thread:-1;").unwrap().thread, Some(1));
    assert_eq!(parse_stop_reply(b"T05thread:--1;").unwrap().thread, None);
    // a leading `-` is dropped
    assert_eq!(parse_stop_reply(b"T05thread:-5;").unwrap().thread, Some(5));
    // later fields win; a field without value is ignored
    assert_eq!(parse_stop_reply(b"T05thread:1;thread;thread:a").unwrap().thread, Some(10));
    // signal may carry a `+`
    assert_eq!(parse_stop_reply(b"S+5").unwrap().stop_kind, StopKind::Signal(5));
    // a watch without a parsable address keeps no address
    assert_eq!(
        parse_stop_reply(b"T05watch:zz").unwrap().stop_kind,
        StopKind::Watch { write: true, read: false, addr: None }
    );
    // unknown fields do not change the kind
    assert_eq!(parse_stop_reply(b"T0bcore:1;").unwrap().stop_kind, StopKind::Signal(11));
    assert_eq!(parse_stop_reply(b"T05thread:1;").unwrap().raw, "T05thread:1;");
}

#[test]
fn stop_reply_text_and_checked() {
    assert_eq!(parse_stop_reply_text("S09").unwrap().stop_kind, StopKind::Signal(9));
    // byte 3 inside a two-byte character: cannot be cut there
    assert!(checked_parse_stop_reply("T0é".as_bytes()).is_none());
    assert!(checked_parse_stop_reply(b"S05").unwrap().is_ok());
}

#[test]
fn hex_encode_decode() {
    assert_eq!(hex_encode(&[0x00, 0xab, 0x1f]), b"00ab1f".to_vec());
    assert_eq!(hex_decode("00AB1f").unwrap(), vec![0x00, 0xab, 0x1f]);
    assert_eq!(protocol_message(hex_decode("abc").unwrap_err()), "odd-length hex: abc");
    assert_eq!(protocol_message(hex_decode("zz").unwrap_err()), "bad hex digit 'z' (0x7a)");
    let data: Vec<u8> = (0..=255).collect();
    assert_eq!(hex_decode(std::str::from_utf8(&hex_encode(&data)).unwrap()).unwrap(), data);
}

#[test]
fn hex_numbers() {
    assert_eq!(parse_u64_hex(&chars("1234abcd")).unwrap(), 0x1234abcd);
    assert_eq!(parse_u64_hex(&chars("+FF")).unwrap(), 0xff);
    assert_eq!(parse_u64_hex(&chars("ffffffffffffffff")).unwrap(), u64::MAX);
    assert_eq!(
        protocol_message(parse_u64_hex(&chars("10000000000000000")).unwrap_err()),
        "bad hex number: 10000000000000000"
    );
    assert!(parse_u64_hex(&chars("")).is_err());
    assert!(parse_u64_hex(&chars("+")).is_err());
    assert!(parse_u64_hex(&chars("-1")).is_err());
    assert_eq!(parse_hex_bounded(&chars("ff"), 255), Some(255));
    assert_eq!(parse_hex_bounded(&chars("100"), 255), None);
    assert_eq!(parse_hex_bounded(&chars("0"), 0), Some(0));
    assert_eq!(parse_hex_bounded(&chars("1"), 0), None);
    assert_eq!(parse_hex_bounded(&chars("7"), 7), Some(7));
    assert_eq!(parse_hex_bounded(&chars("8"), 7), None);
}

#[test]
fn packet_size_from_qsupported() {
    assert_eq!(
        parse_packet_size("PacketSize=4000;qXfer:features:read+;swbreak+"),
        Some(0x4000)
    );
    assert_eq!(parse_packet_size("swbreak+;PacketSize=zz;PacketSize=1f"), Some(0x1f));
    assert_eq!(parse_packet_size("swbreak+"), None);
    assert_eq!(parse_packet_size(""), None);
}
