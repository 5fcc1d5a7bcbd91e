use lib::gdbproto::{checksum, encode_packet, escape, unescape, Decoded, Decoder};

#[test]
fn encode_known_packet() {
    // checksum('$' excluded): 'O'+'K' = 0x4f+0x4b = 0x9a
    assert_eq!(encode_packet(b"OK"), b"$OK#9a".to_vec());
    assert_eq!(encode_packet(b""), b"$#00".to_vec());
    assert_eq!(checksum(b""), 0);
}

#[test]
fn decode_roundtrip() {
    let mut d = Decoder::new();
    let pkt = encode_packet(b"vCont?");
    let got = d.feed(&pkt);
    assert_eq!(got, vec![Decoded::Packet(b"vCont?".to_vec())]);
}

#[test]
fn decode_byte_by_byte() {
    let pkt = encode_packet(b"qSupported:swbreak+");
    let mut d = Decoder::new();
    let mut acc = Vec::new();
    for b in pkt {
        acc.extend(d.feed(&[b]));
    }
    assert_eq!(acc, vec![Decoded::Packet(b"qSupported:swbreak+".to_vec())]);
}

#[test]
fn bad_checksum_dropped() {
    let mut d = Decoder::new();
    let mut pkt = encode_packet(b"OK");
    let last = pkt.len() - 1;
    pkt[last] = if pkt[last] == b'0' { b'1' } else { b'0' };
    let got = d.feed(&pkt);
    assert!(got.is_empty());
    assert_eq!(d.bad_checksums, 1);
}

#[test]
fn ack_nack_interrupt() {
    let mut d = Decoder::new();
    let got = d.feed(b"+-\x03");
    assert_eq!(got, vec![Decoded::Ack, Decoded::Nack, Decoded::Interrupt]);
}

#[test]
fn escape_roundtrip() {
    let data = [0x00, 0x23, 0x24, 0x7d, 0x7e, 0xff, b'A'];
    let e = escape(&data);
    assert!(!e.contains(&0x23));
    assert!(!e.contains(&0x24));
    assert!(!e.contains(&0x7e));
    assert_eq!(unescape(&e).unwrap(), data);
}

#[test]
fn escape_bad_trailing() {
    assert!(unescape(&[0x7d]).is_err());
}

// Further cases.

#[test]
fn checksum_wraps_modulo_256() {
    assert_eq!(checksum(&[0xff, 0x02]), 0x01);
    assert_eq!(checksum(b"OK"), 0x9a);
    assert_eq!(encode_packet(&[0xff, 0x02]), vec![b'$', 0xff, 0x02, b'#', b'0', b'1']);
}

#[test]
fn escape_exact_bytes() {
    assert_eq!(escape(&[0x23, 0x24, 0x7d, 0x7e, 0x41]), vec![0x7d, 0x03, 0x7d, 0x04, 0x7d, 0x5d, 0x7d, 0x5e, 0x41]);
    assert_eq!(escape(&[]), Vec::<u8>::new());
}

#[test]
fn unescape_exact_bytes_and_error_text() {
    assert_eq!(unescape(&[0x41, 0x7d, 0x5d, 0x42]).unwrap(), vec![0x41, 0x7d, 0x42]);
    assert_eq!(unescape(&[0x41, 0x7d]).unwrap_err(), "trailing escape byte");
}

#[test]
fn split_feed_equals_whole_feed() {
    let mut stream = encode_packet(b"T05thread:1;");
    stream.extend_from_slice(b"+");
    stream.extend(encode_packet(b"OK"));
    for cut in 0..=stream.len() {
        let mut d = Decoder::new();
        let mut got = d.feed(&stream[..cut]);
        got.extend(d.feed(&stream[cut..]));
        assert_eq!(
            got,
            vec![Decoded::Packet(b"T05thread:1;".to_vec()), Decoded::Ack, Decoded::Packet(b"OK".to_vec())]
        );
    }
}

#[test]
fn restart_on_dollar_inside_packet_and_uppercase_checksum() {
    let mut d = Decoder::new();
    // `$` restarts the payload; the checksum digits may be uppercase.
    let got = d.feed(b"$junk$OK#9A");
    assert_eq!(got, vec![Decoded::Packet(b"OK".to_vec())]);
    assert_eq!(d.bad_checksums, 0);
}

#[test]
fn noise_between_packets_ignored_and_no_ack_flag() {
    let mut d = Decoder::new();
    assert!(!d.no_ack());
    d.set_no_ack(true);
    assert!(d.no_ack());
    let got = d.feed(b"xyz$OK#9a");
    assert_eq!(got, vec![Decoded::Packet(b"OK".to_vec())]);
}

#[test]
fn bad_checksum_counts_each_dropped_packet() {
    let mut d = Decoder::new();
    let got = d.feed(b"$OK#00$OK#zz$OK#9a");
    assert_eq!(got, vec![Decoded::Packet(b"OK".to_vec())]);
    assert_eq!(d.bad_checksums, 2);
    assert_eq!(d.bad_checksum_count(), 2);
}
