use lib::gdb_remote::GdbError;
use lib::packets::{
    breakpoint_request, check_breakpoint_reply, decode_qxfer_chunk, expect_ok, mem_chunk_len,
    mem_read_next, mem_read_request, mem_read_step, mem_write_request, parse_mem_reply,
    parse_qxfer_reply, parse_reg_reply, parse_regs_reply, parse_thread_info, push_dec, push_hex,
    qxfer_chunk_len, qxfer_next_request, qxfer_request, qxfer_step, qxfer_text, reg_read_request,
    reg_write_request, resume_request, thread_select_request,
};

fn message(e: GdbError) -> String {
    match e {
        GdbError::Protocol(m) => format!("protocol: {}", m),
        GdbError::Unsupported(m) => format!("unsupported: {}", m),
        GdbError::Io(e) => format!("io: {}", e),
    }
}

#[test]
fn numbers() {
    let mut v = Vec::new();
    push_hex(&mut v, 0);
    push_hex(&mut v, 0x1234abcd);
    push_dec(&mut v, 0);
    push_dec(&mut v, 255);
    assert_eq!(v, b"01234abcd0255".to_vec());
}

#[test]
fn requests() {
    assert_eq!(thread_select_request(0x1f), b"Hg1f".to_vec());
    assert_eq!(mem_read_request(0x1000, 8), b"m1000,8".to_vec());
    assert_eq!(mem_write_request(0x10, &[0xde, 0xad]), b"M10,2:dead".to_vec());
    assert_eq!(reg_read_request(32), b"p20".to_vec());
    assert_eq!(reg_write_request(1, &[0x01, 0x02]), b"P1=0102".to_vec());
    assert_eq!(resume_request(false, None), b"vCont;c".to_vec());
    assert_eq!(resume_request(true, Some(1)), b"vCont;s:1".to_vec());
    assert_eq!(breakpoint_request(true, 0, 0x1000, 1), b"Z0,1000,1".to_vec());
    assert_eq!(breakpoint_request(false, 4, 0xabc, 8), b"z4,abc,8".to_vec());
    assert_eq!(qxfer_request("target.xml", 0, 0x3fc0), b"qXfer:features:read:target.xml:0,3fc0".to_vec());
}

#[test]
fn chunk_lengths() {
    assert_eq!(qxfer_chunk_len(0x4000), 0x3fc0);
    assert_eq!(qxfer_chunk_len(10), 0);
    assert_eq!(qxfer_chunk_len(0x20000), 0xfffe);
    assert_eq!(mem_chunk_len(0x4000), (0x4000 - 32) / 2);
    assert_eq!(mem_chunk_len(40), 16);
    assert_eq!(mem_chunk_len(0), 16);
}

#[test]
fn ok_and_breakpoint_replies() {
    assert!(expect_ok(b"OK", "Hg").is_ok());
    assert_eq!(message(expect_ok(b"E01", "Hg").unwrap_err()), "protocol: Hg failed: E01");
    assert!(check_breakpoint_reply(b"OK", true, 0).is_ok());
    assert_eq!(
        message(check_breakpoint_reply(b"", true, 2).unwrap_err()),
        "unsupported: Z2 not supported by stub"
    );
    assert_eq!(
        message(check_breakpoint_reply(b"E22", false, 1).unwrap_err()),
        "protocol: z1 failed: E22"
    );
}

#[test]
fn hex_data_replies() {
    assert_eq!(parse_regs_reply(b"00000000000000001111111111111111").unwrap().len(), 16);
    assert_eq!(message(parse_regs_reply(b"E01").unwrap_err()), "protocol: g error: E01");
    assert_eq!(message(parse_regs_reply(&[0xff, 0xfe]).unwrap_err()), "protocol: g reply not utf8");
    assert_eq!(parse_reg_reply(b"0a0b").unwrap(), vec![0x0a, 0x0b]);
    assert_eq!(message(parse_reg_reply(b"xxxxxxxx").unwrap_err()), "unsupported: register unavailable");
    assert_eq!(message(parse_reg_reply(b"").unwrap_err()), "unsupported: register unavailable");
    assert_eq!(message(parse_reg_reply(b"E05").unwrap_err()), "protocol: p error: E05");
    assert_eq!(parse_mem_reply(b"abababababababab", 8).unwrap(), vec![0xab; 8]);
    assert_eq!(message(parse_mem_reply(b"E14", 8).unwrap_err()), "protocol: m error: E14");
    assert_eq!(message(parse_mem_reply(b"", 8).unwrap_err()), "protocol: empty mem reply");
    assert_eq!(message(parse_mem_reply(b"abab", 8).unwrap_err()), "protocol: short mem read: got 2 want 8");
    assert_eq!(message(parse_mem_reply(&[0xc0], 1).unwrap_err()), "protocol: mem reply not utf8");
}

#[test]
fn thread_lists() {
    let (more, ids) = parse_thread_info(b"m1,2").unwrap();
    assert!(more);
    assert_eq!(ids, vec![1, 2]);
    let (more, ids) = parse_thread_info(b"m,a,,").unwrap();
    assert!(more);
    assert_eq!(ids, vec![10]);
    let (more, ids) = parse_thread_info(b"l").unwrap();
    assert!(!more);
    assert!(ids.is_empty());
    assert!(!parse_thread_info(b"").unwrap().0);
    assert_eq!(message(parse_thread_info(b"m1,zz").unwrap_err()), "protocol: bad hex number: zz");
    assert_eq!(message(parse_thread_info(b"OK").unwrap_err()), "protocol: bad thread info: OK");
}

#[test]
fn qxfer_bodies() {
    assert_eq!(decode_qxfer_chunk(b"<?xml?>"), b"<?xml?>".to_vec());
    assert_eq!(decode_qxfer_chunk(b"3c3f"), b"<?".to_vec());
    assert_eq!(decode_qxfer_chunk(b"3c3"), b"3c3".to_vec());
    assert_eq!(decode_qxfer_chunk(b"zz"), b"zz".to_vec());
    assert_eq!(decode_qxfer_chunk(b""), Vec::<u8>::new());
    assert_eq!(parse_qxfer_reply(b"l<target/>").unwrap(), (false, b"<target/>".to_vec()));
    assert_eq!(parse_qxfer_reply(b"m3c").unwrap(), (true, b"<".to_vec()));
    assert_eq!(message(parse_qxfer_reply(b"").unwrap_err()), "protocol: empty qXfer reply");
    assert_eq!(message(parse_qxfer_reply(b"E01").unwrap_err()), "protocol: unexpected qXfer lead byte E");
}

#[test]
fn mem_read_in_chunks() {
    // Packet size 64: 16 bytes per request.
    assert_eq!(mem_read_next(0x1000, 40, 0, 64), Some((b"m1000,10".to_vec(), 16)));
    assert_eq!(mem_read_next(0x1000, 40, 16, 64), Some((b"m1010,10".to_vec(), 16)));
    assert_eq!(mem_read_next(0x1000, 40, 32, 64), Some((b"m1020,8".to_vec(), 8)));
    assert_eq!(mem_read_next(0x1000, 40, 40, 64), None);
    assert_eq!(mem_read_next(0x1000, 40, 48, 64), None);
    assert_eq!(mem_read_next(0x1000, 0, 0, 0x4000), None);
    // A large packet size asks for everything at once.
    assert_eq!(mem_read_next(0xffff_0000, 4, 0, 0x4000), Some((b"mffff0000,4".to_vec(), 4)));
    assert_eq!(mem_read_next(u64::MAX, 1, 0, 0x4000), Some((b"mffffffffffffffff,1".to_vec(), 1)));
}

#[test]
fn mem_read_steps_join_replies() {
    let mut out = Vec::new();
    let next = mem_read_step(&mut out, 0, 2, b"dead").unwrap();
    assert_eq!(next, 2);
    let next = mem_read_step(&mut out, next, 2, b"BEEF").unwrap();
    assert_eq!(next, 4);
    assert_eq!(out, vec![0xde, 0xad, 0xbe, 0xef]);
    // A reply longer than asked is taken whole.
    let next = mem_read_step(&mut out, next, 1, b"0102").unwrap();
    assert_eq!(next, 6);
    assert_eq!(out, vec![0xde, 0xad, 0xbe, 0xef, 0x01, 0x02]);
}

#[test]
fn mem_read_step_errors_leave_data() {
    let mut out = vec![7u8];
    assert_eq!(message(mem_read_step(&mut out, 1, 2, b"E14").unwrap_err()), "protocol: m error: E14");
    assert_eq!(message(mem_read_step(&mut out, 1, 2, b"").unwrap_err()), "protocol: empty mem reply");
    assert_eq!(
        message(mem_read_step(&mut out, 1, 4, b"0102").unwrap_err()),
        "protocol: short mem read: got 2 want 4"
    );
    assert_eq!(message(mem_read_step(&mut out, 1, 1, b"abc").unwrap_err()), "protocol: odd-length hex: abc");
    assert_eq!(message(mem_read_step(&mut out, 1, 1, &[0xff, 0xfe]).unwrap_err()), "protocol: mem reply not utf8");
    assert_eq!(out, vec![7u8]);
}

#[test]
fn qxfer_fetch_in_pieces() {
    assert_eq!(qxfer_next_request("target.xml", 0, 0x4000), b"qXfer:features:read:target.xml:0,3fc0".to_vec());
    assert_eq!(qxfer_next_request("target.xml", 0x3fc0, 0x4000), b"qXfer:features:read:target.xml:3fc0,3fc0".to_vec());
    assert_eq!(qxfer_next_request("a.xml", 5, 0x100000), b"qXfer:features:read:a.xml:5,fffe".to_vec());
    let mut out = Vec::new();
    // QEMU sends raw XML; a classic stub hex-encodes.
    assert_eq!(qxfer_step(&mut out, 0, b"m<tar").unwrap(), (true, 4));
    assert_eq!(qxfer_step(&mut out, 4, b"m6765").unwrap(), (true, 6));
    assert_eq!(qxfer_step(&mut out, 6, b"l<t/>").unwrap(), (false, 10));
    assert_eq!(out, b"<targe<t/>".to_vec());
    assert_eq!(qxfer_text(&out), "<targe<t/>".to_string());
    assert_eq!(qxfer_text(&[0x3c, 0xff, 0x3e]), "<\u{fffd}>".to_string());
}

#[test]
fn qxfer_step_errors() {
    let mut out = b"<a".to_vec();
    assert_eq!(message(qxfer_step(&mut out, 2, b"").unwrap_err()), "protocol: empty qXfer reply");
    assert_eq!(message(qxfer_step(&mut out, 2, b"E01").unwrap_err()), "protocol: unexpected qXfer lead byte E");
    assert_eq!(out, b"<a".to_vec());
}
