//! The commands a GDB remote client sends and how it reads the replies:
//! request payloads for each operation, and the checks on what comes back.
use vstd::prelude::*;
use vstd::utf8::*;
use crate::gdbproto::{hex_digit_spec, hex_val_spec};
use crate::gdb_remote::{
    hex_decode, hex_decode_spec, hex_encode, hex_encode_spec, hex_pairs_spec,
    law_hex_decode_inverts_encode, parse_hex_spec, parse_u64_hex, result_view, ErrorView,
    GdbError, Result,
};
use crate::text::{
    chars_of, lossy_utf8, pieces_view, push_bytes_as_chars, push_str, split_chars,
    split_spec, string_from_chars, utf8_lossy, utf8_str, latin1,
};

verus! {

broadcast use vstd::utf8::encode_utf8_decode_utf8, vstd::utf8::encode_utf8_valid_utf8;

// ---------------------------------------------------------------------------
// Numbers in requests
// ---------------------------------------------------------------------------

/// `{:x}`: lowercase hex digits without leading zeros (`0` for zero).
pub open spec fn hex_number(n: nat) -> Seq<u8>
    decreases n,
{
    if n < 16 {
        seq![hex_digit_spec(n as u8)]
    } else {
        hex_number(n / 16).push(hex_digit_spec((n % 16) as u8))
    }
}

/// `{}` for an unsigned number: decimal digits without leading zeros.
pub open spec fn dec_number(n: nat) -> Seq<u8>
    decreases n,
{
    if n < 10 {
        seq![(48 + n) as u8]
    } else {
        dec_number(n / 10).push((48 + n % 10) as u8)
    }
}

fn digit_hex(n: u64) -> (r: u8)
    requires
        n < 16,
    ensures
        r == hex_digit_spec(n as u8),
{
    let d = n as u8;
    if d < 10 {
        0x30 + d
    } else {
        0x61 + (d - 10)
    }
}

/// Appends `n` in lowercase hex.
pub fn push_hex(out: &mut Vec<u8>, n: u64)
    ensures
        final(out)@ == old(out)@ + hex_number(n as nat),
    decreases n,
{
    if n < 16 {
        out.push(digit_hex(n));
        assert(out@ =~= old(out)@ + hex_number(n as nat));
    } else {
        push_hex(out, n / 16);
        out.push(digit_hex(n % 16));
        assert(out@ =~= old(out)@ + hex_number(n as nat));
    }
}

/// Appends `n` in decimal.
pub fn push_dec(out: &mut Vec<u8>, n: u64)
    ensures
        final(out)@ == old(out)@ + dec_number(n as nat),
    decreases n,
{
    if n < 10 {
        out.push(0x30 + n as u8);
        assert(out@ =~= old(out)@ + dec_number(n as nat));
    } else {
        push_dec(out, n / 10);
        out.push(0x30 + (n % 10) as u8);
        assert(out@ =~= old(out)@ + dec_number(n as nat));
    }
}

fn push_lit(out: &mut Vec<u8>, lit: &[u8])
    ensures
        final(out)@ == old(out)@ + lit@,
{
    out.extend_from_slice(lit);
}

fn push_str_bytes(out: &mut Vec<u8>, s: &str)
    ensures
        final(out)@ == old(out)@ + encode_utf8(s@),
{
    out.extend_from_slice(s.as_bytes());
}

// ---------------------------------------------------------------------------
// Requests
// ---------------------------------------------------------------------------

/// `Hg<tid>`: select the thread that register and memory accesses refer to.
pub fn thread_select_request(tid: u64) -> (r: Vec<u8>)
    ensures
        r@ == seq![0x48u8, 0x67u8] + hex_number(tid as nat),
{
    let mut r: Vec<u8> = Vec::new();
    r.push(0x48);
    r.push(0x67);
    push_hex(&mut r, tid);
    r
}

/// The payload `m<addr>,<len>`.
pub open spec fn mem_read_request_spec(addr: nat, len: nat) -> Seq<u8> {
    seq![0x6du8] + hex_number(addr) + seq![0x2cu8] + hex_number(len)
}

/// `m<addr>,<len>`: read memory.
pub fn mem_read_request(addr: u64, len: u64) -> (r: Vec<u8>)
    ensures
        r@ == mem_read_request_spec(addr as nat, len as nat),
{
    let mut r: Vec<u8> = Vec::new();
    r.push(0x6d);
    push_hex(&mut r, addr);
    r.push(0x2c);
    push_hex(&mut r, len);
    r
}

/// `M<addr>,<len>:<hex data>`: write memory.
pub fn mem_write_request(addr: u64, data: &[u8]) -> (r: Vec<u8>)
    ensures
        r@ == seq![0x4du8] + hex_number(addr as nat) + seq![0x2cu8] + hex_number(
            data@.len(),
        ) + seq![0x3au8] + hex_encode_spec(data@),
{
    let mut r: Vec<u8> = Vec::new();
    r.push(0x4d);
    push_hex(&mut r, addr);
    r.push(0x2c);
    push_hex(&mut r, data.len() as u64);
    r.push(0x3a);
    let h = hex_encode(data);
    push_lit(&mut r, h.as_slice());
    r
}

/// `p<regnum>`: read one register.
pub fn reg_read_request(regnum: u64) -> (r: Vec<u8>)
    ensures
        r@ == seq![0x70u8] + hex_number(regnum as nat),
{
    let mut r: Vec<u8> = Vec::new();
    r.push(0x70);
    push_hex(&mut r, regnum);
    r
}

/// `P<regnum>=<hex value>`: write one register.
pub fn reg_write_request(regnum: u64, val: &[u8]) -> (r: Vec<u8>)
    ensures
        r@ == seq![0x50u8] + hex_number(regnum as nat) + seq![0x3du8] + hex_encode_spec(val@),
{
    let mut r: Vec<u8> = Vec::new();
    r.push(0x50);
    push_hex(&mut r, regnum);
    r.push(0x3d);
    let h = hex_encode(val);
    push_lit(&mut r, h.as_slice());
    r
}

/// `vCont;c[:tid]` to continue or `vCont;s[:tid]` to single-step.
pub open spec fn resume_request_spec(step: bool, tid: Option<u64>) -> Seq<u8> {
    let head = seq![0x76u8, 0x43u8, 0x6fu8, 0x6eu8, 0x74u8, 0x3bu8, if step {
        0x73u8
    } else {
        0x63u8
    }];
    match tid {
        Some(t) => head + seq![0x3au8] + hex_number(t as nat),
        None => head,
    }
}

pub fn resume_request(step: bool, tid: Option<u64>) -> (r: Vec<u8>)
    ensures
        r@ == resume_request_spec(step, tid),
{
    let mut r: Vec<u8> = Vec::new();
    r.push(0x76);
    r.push(0x43);
    r.push(0x6f);
    r.push(0x6e);
    r.push(0x74);
    r.push(0x3b);
    r.push(if step {
        0x73
    } else {
        0x63
    });
    match tid {
        Some(t) => {
            r.push(0x3a);
            push_hex(&mut r, t);
        },
        None => {},
    }
    assert(r@ =~= resume_request_spec(step, tid));
    r
}

/// `Z<kind>,<addr>,<size>` inserts and `z<kind>,<addr>,<size>` removes a
/// breakpoint. kind: 0 sw, 1 hw, 2 write watch, 3 read watch, 4 access watch.
pub open spec fn breakpoint_request_spec(insert: bool, kind: u8, addr: u64, size: u64) -> Seq<u8> {
    seq![if insert {
        0x5au8
    } else {
        0x7au8
    }] + dec_number(kind as nat) + seq![0x2cu8] + hex_number(addr as nat) + seq![0x2cu8]
        + hex_number(size as nat)
}

pub fn breakpoint_request(insert: bool, kind: u8, addr: u64, size: u64) -> (r: Vec<u8>)
    ensures
        r@ == breakpoint_request_spec(insert, kind, addr, size),
{
    let mut r: Vec<u8> = Vec::new();
    r.push(if insert {
        0x5a
    } else {
        0x7a
    });
    push_dec(&mut r, kind as u64);
    r.push(0x2c);
    push_hex(&mut r, addr);
    r.push(0x2c);
    push_hex(&mut r, size);
    r
}

/// The payload `qXfer:features:read:<annex>:<offset>,<len>`.
pub open spec fn qxfer_request_spec(annex: Seq<char>, offset: nat, len: nat) -> Seq<u8> {
    "qXfer:features:read:"@.map_values(|c: char| c as u8) + encode_utf8(annex) + seq![0x3au8]
        + hex_number(offset) + seq![0x2cu8] + hex_number(len)
}

/// `qXfer:features:read:<annex>:<offset>,<len>`: read part of a target
/// description file.
pub fn qxfer_request(annex: &str, offset: u64, len: u64) -> (r: Vec<u8>)
    ensures
        r@ == qxfer_request_spec(annex@, offset as nat, len as nat),
{
    let mut r: Vec<u8> = Vec::new();
    let prefix = chars_of("qXfer:features:read:");
    let mut i: usize = 0;
    while i < prefix.len()
        invariant
            i <= prefix@.len(),
            prefix@ == "qXfer:features:read:"@,
            r@ == prefix@.take(i as int).map_values(|c: char| c as u8),
        decreases prefix@.len() - i,
    {
        r.push(prefix[i] as u8);
        i = i + 1;
        assert(r@ =~= prefix@.take(i as int).map_values(|c: char| c as u8));
    }
    assert(prefix@.take(i as int) =~= prefix@);
    push_str_bytes(&mut r, annex);
    r.push(0x3a);
    push_hex(&mut r, offset);
    r.push(0x2c);
    push_hex(&mut r, len);
    r
}

/// How much target description to ask for at a time: the packet size less
/// 64 bytes of headroom, at most 0xfffe.
pub open spec fn qxfer_chunk_len_spec(packet_size: nat) -> nat {
    if packet_size < 64 {
        0
    } else if packet_size - 64 > 0xfffe {
        0xfffe
    } else {
        (packet_size - 64) as nat
    }
}

pub fn qxfer_chunk_len(packet_size: usize) -> (n: usize)
    ensures
        n == qxfer_chunk_len_spec(packet_size as nat),
{
    let room = if packet_size < 64 {
        0
    } else {
        packet_size - 64
    };
    if room > 0xfffe {
        0xfffe
    } else {
        room
    }
}

/// How much memory to read per `m` request: hex doubles the size, so half
/// the packet size less 32 bytes, and at least 16.
pub open spec fn mem_chunk_len_spec(packet_size: nat) -> nat {
    if packet_size < 32 {
        16
    } else if (packet_size - 32) / 2 < 16 {
        16
    } else {
        ((packet_size - 32) / 2) as nat
    }
}

pub fn mem_chunk_len(packet_size: usize) -> (n: usize)
    ensures
        n == mem_chunk_len_spec(packet_size as nat),
{
    let room = if packet_size < 32 {
        0
    } else {
        packet_size - 32
    };
    let half = room / 2;
    if half < 16 {
        16
    } else {
        half
    }
}

// ---------------------------------------------------------------------------
// Replies
// ---------------------------------------------------------------------------

/// The reply is exactly `OK`.
pub open spec fn is_ok_reply(r: Seq<u8>) -> bool {
    r == seq![0x4fu8, 0x4bu8]
}

pub fn reply_is_ok(r: &[u8]) -> (b: bool)
    ensures
        b == is_ok_reply(r@),
{
    let ok = r.len() == 2 && r[0] == 0x4f && r[1] == 0x4b;
    assert(ok ==> r@ =~= seq![0x4fu8, 0x4bu8]);
    ok
}

/// A protocol error `<what><middle><reply as text>`.
fn reply_error(what: &str, middle: &str, reply: &[u8]) -> (e: GdbError)
    ensures
        e@ == ErrorView::Protocol(what@ + middle@ + lossy_utf8(reply@)),
{
    let text = utf8_lossy(reply);
    GdbError::Protocol(String::from_str(what).concat(middle).concat(text.as_str()))
}

/// A reply that must be `OK`; anything else is reported as
/// `<what> failed: <reply>`.
pub fn expect_ok(reply: &[u8], what: &str) -> (r: Result<()>)
    ensures
        match r {
            Ok(()) => is_ok_reply(reply@),
            Err(e) => !is_ok_reply(reply@) && e@ == ErrorView::Protocol(
                what@ + " failed: "@ + lossy_utf8(reply@),
            ),
        },
{
    if reply_is_ok(reply) {
        Ok(())
    } else {
        Err(reply_error(what, " failed: ", reply))
    }
}

/// The command letter of a breakpoint packet followed by its kind, in
/// decimal (`Z0`, `z4`, ...).
pub open spec fn breakpoint_name(insert: bool, kind: u8) -> Seq<char> {
    seq![if insert {
        'Z'
    } else {
        'z'
    }] + latin1(dec_number(kind as nat))
}

fn breakpoint_name_chars(insert: bool, kind: u8) -> (v: Vec<char>)
    ensures
        v@ == breakpoint_name(insert, kind),
{
    let mut v: Vec<char> = Vec::new();
    v.push(if insert {
        'Z'
    } else {
        'z'
    });
    let mut digits: Vec<u8> = Vec::new();
    push_dec(&mut digits, kind as u64);
    assert(digits@ =~= dec_number(kind as nat));
    push_bytes_as_chars(&mut v, digits.as_slice());
    v
}

/// The reply to `Z`/`z`: empty means the stub lacks that kind, `OK` means
/// done, anything else failed.
pub fn check_breakpoint_reply(reply: &[u8], insert: bool, kind: u8) -> (r: Result<()>)
    ensures
        match r {
            Ok(()) => is_ok_reply(reply@),
            Err(e) => if reply@.len() == 0 {
                e@ == ErrorView::Unsupported(breakpoint_name(insert, kind) + " not supported by stub"@)
            } else {
                !is_ok_reply(reply@) && e@ == ErrorView::Protocol(
                    breakpoint_name(insert, kind) + " failed: "@ + lossy_utf8(reply@),
                )
            },
        },
{
    let mut name = breakpoint_name_chars(insert, kind);
    if reply.len() == 0 {
        push_str(&mut name, " not supported by stub");
        return Err(GdbError::Unsupported(string_from_chars(name.as_slice())));
    }
    if reply_is_ok(reply) {
        return Ok(());
    }
    push_str(&mut name, " failed: ");
    let text = utf8_lossy(reply);
    push_str(&mut name, text.as_str());
    Err(GdbError::Protocol(string_from_chars(name.as_slice())))
}

/// Replies that carry hex data (`g`, `p`, `m`): an `E` reply is an error,
/// then the text must be UTF-8 and hex.
pub open spec fn hex_reply_spec(reply: Seq<u8>, what: Seq<char>) -> std::result::Result<
    Seq<u8>,
    ErrorView,
> {
    if reply.len() > 0 && reply[0] == 0x45 {
        Err(ErrorView::Protocol(what + " error: "@ + lossy_utf8(reply)))
    } else if !valid_utf8(reply) {
        Err(ErrorView::Protocol(what + " reply not utf8"@))
    } else {
        hex_decode_spec(decode_utf8(reply))
    }
}

fn decode_hex_reply(reply: &[u8], err_what: &str, utf8_what: &str) -> (r: Result<Vec<u8>>)
    ensures
        reply@.len() > 0 && reply@[0] == 0x45 ==> result_view(r) == Err::<Seq<u8>, ErrorView>(
            ErrorView::Protocol(err_what@ + " error: "@ + lossy_utf8(reply@)),
        ),
        !(reply@.len() > 0 && reply@[0] == 0x45) ==> result_view(r) == (if !valid_utf8(reply@) {
            Err::<Seq<u8>, ErrorView>(ErrorView::Protocol(utf8_what@ + " reply not utf8"@))
        } else {
            hex_decode_spec(decode_utf8(reply@))
        }),
{
    if reply.len() > 0 && reply[0] == 0x45 {
        return Err(reply_error(err_what, " error: ", reply));
    }
    match utf8_str(reply) {
        Some(s) => hex_decode(s),
        None => Err(GdbError::Protocol(String::from_str(utf8_what).concat(" reply not utf8"))),
    }
}

/// The reply to `g`: all registers as hex.
pub fn parse_regs_reply(reply: &[u8]) -> (r: Result<Vec<u8>>)
    ensures
        result_view(r) == hex_reply_spec(reply@, "g"@),
{
    decode_hex_reply(reply, "g", "g")
}

/// A register the stub cannot read comes back as `x` characters only.
pub open spec fn all_x(reply: Seq<u8>) -> bool {
    forall|i: int| 0 <= i < reply.len() ==> #[trigger] reply[i] == 0x78
}

/// The reply to `p`: one register as hex, or `x`s when it is unavailable.
pub open spec fn reg_reply_spec(reply: Seq<u8>) -> std::result::Result<Seq<u8>, ErrorView> {
    if reply.len() > 0 && reply[0] == 0x45 {
        Err(ErrorView::Protocol("p error: "@ + lossy_utf8(reply)))
    } else if all_x(reply) {
        Err(ErrorView::Unsupported("register unavailable"@))
    } else {
        hex_reply_spec(reply, "p"@)
    }
}

pub fn parse_reg_reply(reply: &[u8]) -> (r: Result<Vec<u8>>)
    ensures
        result_view(r) == reg_reply_spec(reply@),
{
    if reply.len() > 0 && reply[0] == 0x45 {
        proof {
            reveal_strlit("p");
            reveal_strlit(" error: ");
            reveal_strlit("p error: ");
            assert("p"@ + " error: "@ =~= "p error: "@);
        }
        return Err(reply_error("p", " error: ", reply));
    }
    let mut i: usize = 0;
    while i < reply.len()
        invariant
            i <= reply@.len(),
            forall|j: int| 0 <= j < i ==> reply@[j] == 0x78,
        ensures
            i <= reply@.len(),
            forall|j: int| 0 <= j < i ==> reply@[j] == 0x78,
            i < reply@.len() ==> reply@[i as int] != 0x78,
        decreases reply@.len() - i,
    {
        if reply[i] != 0x78 {
            break;
        }
        i = i + 1;
    }
    if i == reply.len() {
        return Err(GdbError::Unsupported(String::from_str("register unavailable")));
    }
    decode_hex_reply(reply, "p", "p")
}

/// The reply to one `m` request for `want` bytes: hex data, not empty, and
/// not shorter than asked.
pub open spec fn mem_reply_spec(reply: Seq<u8>, want: nat) -> std::result::Result<
    Seq<u8>,
    ErrorView,
> {
    if reply.len() > 0 && reply[0] == 0x45 {
        Err(ErrorView::Protocol("m error: "@ + lossy_utf8(reply)))
    } else if !valid_utf8(reply) {
        Err(ErrorView::Protocol("mem reply not utf8"@))
    } else {
        match hex_decode_spec(decode_utf8(reply)) {
            Err(e) => Err(e),
            Ok(bytes) => if bytes.len() == 0 {
                Err(ErrorView::Protocol("empty mem reply"@))
            } else if bytes.len() < want {
                Err(
                    ErrorView::Protocol(
                        "short mem read: got "@ + latin1(dec_number(bytes.len())) + " want "@
                            + latin1(dec_number(want)),
                    ),
                )
            } else {
                Ok(bytes)
            },
        }
    }
}

pub fn parse_mem_reply(reply: &[u8], want: usize) -> (r: Result<Vec<u8>>)
    ensures
        result_view(r) == mem_reply_spec(reply@, want as nat),
{
    proof {
        reveal_strlit("m");
        reveal_strlit(" error: ");
        reveal_strlit("m error: ");
        reveal_strlit("mem");
        reveal_strlit(" reply not utf8");
        reveal_strlit("mem reply not utf8");
        assert("m"@ + " error: "@ =~= "m error: "@);
        assert("mem"@ + " reply not utf8"@ =~= "mem reply not utf8"@);
    }
    let bytes = match decode_hex_reply(reply, "m", "mem") {
        Ok(b) => b,
        Err(e) => return Err(e),
    };
    if bytes.len() == 0 {
        return Err(GdbError::Protocol(String::from_str("empty mem reply")));
    }
    if bytes.len() < want {
        let mut msg: Vec<char> = Vec::new();
        push_str(&mut msg, "short mem read: got ");
        let mut got: Vec<u8> = Vec::new();
        push_dec(&mut got, bytes.len() as u64);
        assert(got@ =~= dec_number(bytes@.len()));
        push_bytes_as_chars(&mut msg, got.as_slice());
        push_str(&mut msg, " want ");
        let mut w: Vec<u8> = Vec::new();
        push_dec(&mut w, want as u64);
        assert(w@ =~= dec_number(want as nat));
        push_bytes_as_chars(&mut msg, w.as_slice());
        return Err(GdbError::Protocol(string_from_chars(msg.as_slice())));
    }
    Ok(bytes)
}


// ---------------------------------------------------------------------------
// Thread lists
// ---------------------------------------------------------------------------

/// Thread ids in the `,`-separated pieces of a `qfThreadInfo`/`qsThreadInfo`
/// reply, in order; empty pieces are skipped, and the first piece that is
/// not a hex number is an error.
pub open spec fn thread_ids_spec(parts: Seq<Seq<char>>) -> std::result::Result<Seq<u64>, ErrorView>
    decreases parts.len(),
{
    if parts.len() == 0 {
        Ok(Seq::empty())
    } else {
        match thread_ids_spec(parts.drop_last()) {
            Err(e) => Err(e),
            Ok(ids) => {
                let part = parts.last();
                if part.len() == 0 {
                    Ok(ids)
                } else {
                    match parse_hex_spec(part, u64::MAX as nat) {
                        Some(n) => Ok(ids.push(n as u64)),
                        None => Err(ErrorView::Protocol("bad hex number: "@ + part)),
                    }
                }
            },
        }
    }
}

/// A thread-info reply: `m<ids>` (more may follow), `l` or empty (the list
/// is complete), anything else an error. Gives whether to ask for more and
/// the ids this reply lists.
pub open spec fn thread_info_spec(reply: Seq<u8>) -> std::result::Result<
    (bool, Seq<u64>),
    ErrorView,
> {
    if reply.len() == 0 {
        Ok((false, Seq::empty()))
    } else if reply[0] == 0x6d {
        match thread_ids_spec(split_spec(lossy_utf8(reply.skip(1)), ',')) {
            Ok(ids) => Ok((true, ids)),
            Err(e) => Err(e),
        }
    } else if reply[0] == 0x6c {
        Ok((false, Seq::empty()))
    } else {
        Err(ErrorView::Protocol("bad thread info: "@ + lossy_utf8(reply)))
    }
}

proof fn lemma_thread_ids_err(parts: Seq<Seq<char>>, k: int, e: ErrorView)
    requires
        0 <= k <= parts.len(),
        thread_ids_spec(parts.take(k)) == Err::<Seq<u64>, ErrorView>(e),
    ensures
        thread_ids_spec(parts) == Err::<Seq<u64>, ErrorView>(e),
    decreases parts.len() - k,
{
    if k < parts.len() {
        assert(parts.take(k + 1).drop_last() =~= parts.take(k));
        lemma_thread_ids_err(parts, k + 1, e);
    } else {
        assert(parts.take(k) =~= parts);
    }
}

pub fn parse_thread_info(reply: &[u8]) -> (r: Result<(bool, Vec<u64>)>)
    ensures
        match r {
            Ok((more, ids)) => thread_info_spec(reply@) == Ok::<(bool, Seq<u64>), ErrorView>(
                (more, ids@),
            ),
            Err(e) => thread_info_spec(reply@) == Err::<(bool, Seq<u64>), ErrorView>(e@),
        },
{
    if reply.len() == 0 {
        return Ok((false, Vec::new()));
    }
    if reply[0] == 0x6c {
        return Ok((false, Vec::new()));
    }
    if reply[0] != 0x6d {
        proof {
            reveal_strlit("bad thread info");
            reveal_strlit(": ");
            reveal_strlit("bad thread info: ");
            assert("bad thread info"@ + ": "@ =~= "bad thread info: "@);
        }
        return Err(reply_error("bad thread info", ": ", reply));
    }
    let text = utf8_lossy(vstd::slice::slice_subrange(reply, 1, reply.len()));
    assert(reply@.subrange(1, reply@.len() as int) =~= reply@.skip(1));
    let chars = chars_of(text.as_str());
    let parts = split_chars(chars.as_slice(), ',');
    let ghost all = pieces_view(parts@);
    let mut ids: Vec<u64> = Vec::new();
    let mut i: usize = 0;
    assert(all.take(0) =~= Seq::<Seq<char>>::empty());
    while i < parts.len()
        invariant
            i <= parts@.len(),
            all == pieces_view(parts@),
            all == split_spec(lossy_utf8(reply@.skip(1)), ','),
            thread_ids_spec(all.take(i as int)) == Ok::<Seq<u64>, ErrorView>(ids@),
            reply@.len() > 0 && reply@[0] == 0x6d,
        decreases parts@.len() - i,
    {
        assert(all.take(i as int + 1).drop_last() =~= all.take(i as int));
        assert(all.take(i as int + 1).last() == parts@[i as int]@);
        let part = parts[i].as_slice();
        if part.len() > 0 {
            match parse_u64_hex(part) {
                Ok(n) => ids.push(n),
                Err(e) => {
                    proof {
                        lemma_thread_ids_err(all, i as int + 1, e@);
                    }
                    return Err(e);
                },
            }
        }
        i = i + 1;
    }
    assert(all.take(i as int) =~= all);
    Ok((true, ids))
}

// ---------------------------------------------------------------------------
// Target description transfers
// ---------------------------------------------------------------------------

pub open spec fn all_hex_bytes(b: Seq<u8>) -> bool {
    forall|i: int| 0 <= i < b.len() ==> #[trigger] hex_val_spec(b[i]) is Some
}

/// A `qXfer` body: raw text when it starts like text (`<`, space, newline,
/// `?`, as QEMU sends XML), hex-decoded when it is an even number of hex
/// digits (classic GDB), raw otherwise.
pub open spec fn qxfer_chunk_spec(body: Seq<u8>) -> Seq<u8> {
    if body.len() == 0 {
        Seq::empty()
    } else if body[0] == 0x3c || body[0] == 0x20 || body[0] == 0x0a || body[0] == 0x3f {
        body
    } else if body.len() % 2 == 0 && all_hex_bytes(body) {
        match hex_pairs_spec(body) {
            Ok(v) => v,
            Err(_) => body,
        }
    } else {
        body
    }
}

proof fn lemma_hex_bytes_valid_utf8(b: Seq<u8>)
    requires
        all_hex_bytes(b),
    ensures
        valid_utf8(b),
{
    assert forall|i: int| 0 <= 0 <= i < b.len() <= b.len() implies #[trigger] is_leading_byte_width_1(
        b[i],
    ) by {
        assert(hex_val_spec(b[i]) is Some);
    }
    assert(b.subrange(0, 0) =~= Seq::<u8>::empty());
    vstd::utf8::partial_valid_utf8_extend_ascii_block(b, 0, b.len() as int);
    assert(b.subrange(0, b.len() as int) =~= b);
}

proof fn lemma_hex_pairs_ok(b: Seq<u8>)
    requires
        all_hex_bytes(b),
    ensures
        hex_pairs_spec(b) is Ok,
    decreases b.len(),
{
    if b.len() >= 2 {
        assert(hex_val_spec(b[0]) is Some);
        assert(hex_val_spec(b[1]) is Some);
        let t = b.skip(2);
        assert forall|i: int| 0 <= i < t.len() implies #[trigger] hex_val_spec(t[i]) is Some by {
            assert(t[i] == b[i + 2]);
        }
        lemma_hex_pairs_ok(t);
    }
}

/// Decode one `qXfer` body: either hex-encoded (classic GDB) or raw (QEMU
/// returns raw XML).
pub fn decode_qxfer_chunk(body: &[u8]) -> (out: Vec<u8>)
    ensures
        out@ == qxfer_chunk_spec(body@),
{
    if body.len() == 0 {
        return Vec::new();
    }
    // Raw text/XML (QEMU): starts with '<' or whitespace+'<'
    if body[0] == 0x3c || body[0] == 0x20 || body[0] == 0x0a || body[0] == 0x3f {
        return vstd::slice::slice_to_vec(body);
    }
    if body.len() % 2 == 0 && all_hex_digits(body) {
        proof {
            lemma_hex_bytes_valid_utf8(body@);
            lemma_hex_pairs_ok(body@);
            vstd::utf8::decode_utf8_encode_utf8(body@);
        }
        let text = match utf8_str(body) {
            Some(s) => s,
            None => "",
        };
        match hex_decode(text) {
            Ok(v) => {
                return v;
            },
            Err(_) => {},
        }
    }
    vstd::slice::slice_to_vec(body)
}

fn all_hex_digits(b: &[u8]) -> (r: bool)
    ensures
        r == all_hex_bytes(b@),
{
    let mut i: usize = 0;
    while i < b.len()
        invariant
            i <= b@.len(),
            forall|j: int| 0 <= j < i ==> #[trigger] hex_val_spec(b@[j]) is Some,
        decreases b@.len() - i,
    {
        let c = b[i];
        if !((0x30 <= c && c <= 0x39) || (0x61 <= c && c <= 0x66) || (0x41 <= c && c <= 0x46)) {
            assert(hex_val_spec(b@[i as int]) is None);
            return false;
        }
        i = i + 1;
    }
    true
}

/// A `qXfer:features:read` reply: `l<body>` is the last piece, `m<body>`
/// has more after it. Gives whether more follows and the decoded piece.
pub open spec fn qxfer_reply_spec(reply: Seq<u8>) -> std::result::Result<(bool, Seq<u8>), ErrorView> {
    if reply.len() == 0 {
        Err(ErrorView::Protocol("empty qXfer reply"@))
    } else if reply[0] == 0x6c {
        Ok((false, qxfer_chunk_spec(reply.skip(1))))
    } else if reply[0] == 0x6d {
        Ok((true, qxfer_chunk_spec(reply.skip(1))))
    } else {
        Err(ErrorView::Protocol("unexpected qXfer lead byte "@ + seq![reply[0] as char]))
    }
}

pub fn parse_qxfer_reply(reply: &[u8]) -> (r: Result<(bool, Vec<u8>)>)
    ensures
        match r {
            Ok((more, chunk)) => qxfer_reply_spec(reply@) == Ok::<(bool, Seq<u8>), ErrorView>(
                (more, chunk@),
            ),
            Err(e) => qxfer_reply_spec(reply@) == Err::<(bool, Seq<u8>), ErrorView>(e@),
        },
{
    if reply.len() == 0 {
        return Err(GdbError::Protocol(String::from_str("empty qXfer reply")));
    }
    let lead = reply[0];
    if lead != 0x6c && lead != 0x6d {
        let mut msg: Vec<char> = Vec::new();
        push_str(&mut msg, "unexpected qXfer lead byte ");
        msg.push(lead as char);
        assert(msg@ =~= "unexpected qXfer lead byte "@ + seq![lead as char]);
        return Err(GdbError::Protocol(string_from_chars(msg.as_slice())));
    }
    let body = vstd::slice::slice_subrange(reply, 1, reply.len());
    assert(body@ =~= reply@.skip(1));
    Ok((lead == 0x6d, decode_qxfer_chunk(body)))
}


proof fn lemma_hex_encode_digits(data: Seq<u8>)
    ensures
        all_hex_bytes(hex_encode_spec(data)),
        forall|i: int|
            0 <= i < hex_encode_spec(data).len() ==> {
                let c = #[trigger] hex_encode_spec(data)[i];
                (0x30 <= c <= 0x39) || (0x61 <= c <= 0x66)
            },
    decreases data.len(),
{
    if data.len() > 0 {
        lemma_hex_encode_digits(data.drop_last());
        let p = hex_encode_spec(data.drop_last());
        let e = hex_encode_spec(data);
        assert forall|i: int| 0 <= i < e.len() implies #[trigger] hex_val_spec(e[i]) is Some && (
        0x30 <= e[i] <= 0x39 || 0x61 <= e[i] <= 0x66) by {
            if i < p.len() {
                assert(e[i] == p[i]);
            }
        }
    }
}

/// A `qXfer` body that a stub hex-encoded decodes to exactly the bytes it
/// encodes.
pub proof fn law_qxfer_hex_body_decodes(data: Seq<u8>)
    ensures
        qxfer_chunk_spec(hex_encode_spec(data)) == data,
{
    law_hex_decode_inverts_encode(data);
    lemma_hex_encode_digits(data);
    let e = hex_encode_spec(data);
    if e.len() == 0 {
        assert(data =~= Seq::<u8>::empty());
    } else {
        assert(0x30 <= e[0] <= 0x39 || 0x61 <= e[0] <= 0x66);
    }
}

/// A `qXfer` body that starts like text (QEMU's raw XML) is kept as it is.
pub proof fn law_qxfer_text_body_kept(body: Seq<u8>)
    requires
        body.len() > 0,
        body[0] == 0x3c,
    ensures
        qxfer_chunk_spec(body) == body,
{
}

// ---------------------------------------------------------------------------
// Reads in pieces: memory and target description
// ---------------------------------------------------------------------------

/// The bytes the parts hold, joined in order.
pub open spec fn join_bytes(parts: Seq<Seq<u8>>) -> Seq<u8>
    decreases parts.len(),
{
    if parts.len() == 0 {
        Seq::empty()
    } else {
        join_bytes(parts.drop_last()) + parts.last()
    }
}

/// The bytes a reply holds as pairs of hex digits (none when it holds
/// something else).
pub open spec fn hex_payload(reply: Seq<u8>) -> Seq<u8> {
    match hex_pairs_spec(reply) {
        Ok(b) => b,
        Err(_) => Seq::empty(),
    }
}

/// How many bytes a read of `len` bytes asks for next when it has `off` of
/// them: what is missing, at most `chunk`.
pub open spec fn mem_read_want(len: nat, off: nat, chunk: nat) -> nat {
    if len - off < chunk {
        (len - off) as nat
    } else {
        chunk
    }
}

/// The bytes an `m` reply delivers when it is accepted for `want` bytes: not
/// an `E` reply, an even number of hex digits, not empty and not shorter than
/// asked.
pub open spec fn mem_reply_data(reply: Seq<u8>, want: nat) -> Option<Seq<u8>> {
    if reply.len() > 0 && reply[0] == 0x45 {
        None
    } else if reply.len() % 2 != 0 {
        None
    } else {
        match hex_pairs_spec(reply) {
            Ok(b) => if b.len() == 0 || b.len() < want {
                None
            } else {
                Some(b)
            },
            Err(_) => None,
        }
    }
}

proof fn lemma_hex_pairs_digits(b: Seq<u8>)
    requires
        b.len() % 2 == 0,
        hex_pairs_spec(b) is Ok,
    ensures
        all_hex_bytes(b),
        hex_pairs_spec(b)->Ok_0.len() == b.len() / 2,
    decreases b.len(),
{
    if b.len() >= 2 {
        let t = b.skip(2);
        lemma_hex_pairs_digits(t);
        assert forall|i: int| 0 <= i < b.len() implies #[trigger] hex_val_spec(b[i]) is Some by {
            if i >= 2 {
                assert(b[i] == t[i - 2]);
            }
        }
    }
}

/// An `m` reply is accepted exactly when `mem_reply_data` gives its bytes.
proof fn lemma_mem_reply_data(reply: Seq<u8>, want: nat)
    ensures
        match mem_reply_spec(reply, want) {
            Ok(b) => mem_reply_data(reply, want) == Some(b),
            Err(_) => mem_reply_data(reply, want) is None,
        },
        mem_reply_data(reply, want) matches Some(b) ==> b.len() == reply.len() / 2 && b
            == hex_payload(reply),
{
    if valid_utf8(reply) {
        vstd::utf8::decode_utf8_encode_utf8(reply);
    }
    if !(reply.len() > 0 && reply[0] == 0x45) && reply.len() % 2 == 0 && hex_pairs_spec(
        reply,
    ) is Ok {
        lemma_hex_pairs_digits(reply);
        lemma_hex_bytes_valid_utf8(reply);
    }
}

/// The next `m` request of a read of `len` bytes at `addr` that has `off`
/// bytes so far, with the number of bytes it asks for; `None` once the read
/// has all it asked for.
pub fn mem_read_next(addr: u64, len: usize, off: usize, packet_size: usize) -> (r: Option<
    (Vec<u8>, usize),
>)
    requires
        off < len ==> addr + off <= u64::MAX,
    ensures
        r is None <==> off >= len,
        match r {
            Some((req, n)) => n == mem_read_want(
                len as nat,
                off as nat,
                mem_chunk_len_spec(packet_size as nat),
            ) && req@ == mem_read_request_spec((addr + off) as nat, n as nat),
            None => true,
        },
{
    if off >= len {
        return None;
    }
    let chunk = mem_chunk_len(packet_size);
    let rest = len - off;
    let n = if rest < chunk {
        rest
    } else {
        chunk
    };
    let at = addr + off as u64;
    Some((mem_read_request(at, n as u64), n))
}

/// Take the reply to an `m` request for `want` bytes: on success its bytes
/// go to the end of `out` and the next offset is returned.
pub fn mem_read_step(out: &mut Vec<u8>, off: usize, want: usize, reply: &[u8]) -> (r: Result<
    usize,
>)
    requires
        mem_reply_data(reply@, want as nat) matches Some(b) ==> off + b.len() <= usize::MAX,
    ensures
        match mem_reply_spec(reply@, want as nat) {
            Ok(b) => final(out)@ == old(out)@ + b && (r matches Ok(next) && next == off + b.len()),
            Err(e) => final(out)@ == old(out)@ && (r matches Err(x) && x@ == e),
        },
{
    proof {
        lemma_mem_reply_data(reply@, want as nat);
    }
    let mut bytes = match parse_mem_reply(reply, want) {
        Ok(b) => b,
        Err(e) => return Err(e),
    };
    let n = bytes.len();
    out.append(&mut bytes);
    Ok(off + n)
}

/// Where a read of `len` bytes stands once `replies` have answered its `m`
/// requests in order, at most `chunk` bytes asked at a time: the bytes so far
/// and the offset of the next request, or the error of the first reply that
/// was refused. A read that has all it asked for sends nothing more, so later
/// replies change nothing.
pub open spec fn mem_read_state(len: nat, chunk: nat, replies: Seq<Seq<u8>>) -> std::result::Result<
    (Seq<u8>, nat),
    ErrorView,
>
    decreases replies.len(),
{
    if replies.len() == 0 {
        Ok((Seq::empty(), 0))
    } else {
        match mem_read_state(len, chunk, replies.drop_last()) {
            Err(e) => Err(e),
            Ok((data, off)) => if off >= len {
                Ok((data, off))
            } else {
                match mem_reply_spec(replies.last(), mem_read_want(len, off, chunk)) {
                    Err(e) => Err(e),
                    Ok(b) => Ok((data + b, off + b.len())),
                }
            },
        }
    }
}

/// A memory read asks each time for the address right after the bytes it
/// has: its offset is the number of bytes received. Each accepted reply adds
/// at least what was asked, so after `k` replies the read has at least
/// `min(len, k * chunk)` bytes.
pub proof fn law_mem_read_consecutive(len: nat, chunk: nat, replies: Seq<Seq<u8>>)
    ensures
        mem_read_state(len, chunk, replies) matches Ok((data, off)) ==> off == data.len() && (off
            >= len || off >= replies.len() * chunk),
    decreases replies.len(),
{
    if replies.len() > 0 {
        let k = replies.len() as int;
        law_mem_read_consecutive(len, chunk, replies.drop_last());
        match mem_read_state(len, chunk, replies.drop_last()) {
            Err(_) => {},
            Ok((data, off)) => {
                assert(k * chunk == (k - 1) * chunk + chunk) by (nonlinear_arith);
            },
        }
    }
}

/// While a memory read is under way, its data is the hex payloads of the
/// replies, joined in order.
pub proof fn law_mem_read_concatenates(len: nat, chunk: nat, replies: Seq<Seq<u8>>)
    requires
        forall|k: int|
            0 <= k < replies.len() ==> (#[trigger] mem_read_state(len, chunk, replies.take(k))
                matches Ok((_, off)) && off < len),
    ensures
        mem_read_state(len, chunk, replies) matches Ok((data, _)) ==> data == join_bytes(
            replies.map_values(|r: Seq<u8>| hex_payload(r)),
        ),
    decreases replies.len(),
{
    if replies.len() > 0 {
        let front = replies.drop_last();
        assert forall|k: int| 0 <= k < front.len() implies (#[trigger] mem_read_state(
            len,
            chunk,
            front.take(k),
        ) matches Ok((_, off)) && off < len) by {
            assert(front.take(k) =~= replies.take(k));
        }
        law_mem_read_concatenates(len, chunk, front);
        assert(replies.take(front.len() as int) =~= front);
        assert(replies.map_values(|r: Seq<u8>| hex_payload(r)).drop_last() =~= front.map_values(
            |r: Seq<u8>| hex_payload(r),
        ));
        match mem_read_state(len, chunk, front) {
            Err(_) => {},
            Ok((data, off)) => {
                lemma_mem_reply_data(replies.last(), mem_read_want(len, off, chunk));
            },
        }
    }
}

/// The next `qXfer:features:read` request for `annex` when `offset` bytes
/// have arrived, asking for as much as the packet size allows.
pub fn qxfer_next_request(annex: &str, offset: usize, packet_size: usize) -> (r: Vec<u8>)
    ensures
        r@ == qxfer_request_spec(annex@, offset as nat, qxfer_chunk_len_spec(packet_size as nat)),
{
    let len = qxfer_chunk_len(packet_size);
    qxfer_request(annex, offset as u64, len as u64)
}

/// Take one `qXfer` reply: its piece goes to the end of `out`; returns
/// whether more follows and the offset of the next request.
pub fn qxfer_step(out: &mut Vec<u8>, offset: usize, reply: &[u8]) -> (r: Result<(bool, usize)>)
    requires
        qxfer_reply_spec(reply@) matches Ok((_, c)) ==> offset + c.len() <= usize::MAX,
    ensures
        match qxfer_reply_spec(reply@) {
            Ok((more, c)) => final(out)@ == old(out)@ + c && (r matches Ok((m, next)) && m == more
                && next == offset + c.len()),
            Err(e) => final(out)@ == old(out)@ && (r matches Err(x) && x@ == e),
        },
{
    let (more, mut chunk) = match parse_qxfer_reply(reply) {
        Ok(p) => p,
        Err(e) => return Err(e),
    };
    let n = chunk.len();
    out.append(&mut chunk);
    Ok((more, offset + n))
}

/// The text of a fetched target description: its bytes as UTF-8, each
/// invalid sequence replaced.
pub fn qxfer_text(data: &[u8]) -> (s: String)
    ensures
        s@ == lossy_utf8(data@),
{
    utf8_lossy(data)
}

/// Where a `qXfer` fetch stands once `replies` have answered its requests in
/// order: the bytes so far and whether more is to come, or the error of the
/// first bad reply. After the last piece nothing more is asked, so later
/// replies change nothing.
pub open spec fn qxfer_state(replies: Seq<Seq<u8>>) -> std::result::Result<(Seq<u8>, bool), ErrorView>
    decreases replies.len(),
{
    if replies.len() == 0 {
        Ok((Seq::empty(), true))
    } else {
        match qxfer_state(replies.drop_last()) {
            Err(e) => Err(e),
            Ok((data, more)) => if !more {
                Ok((data, false))
            } else {
                match qxfer_reply_spec(replies.last()) {
                    Err(e) => Err(e),
                    Ok((m, c)) => Ok((data + c, m)),
                }
            },
        }
    }
}

/// The piece one `qXfer` reply carries after its lead byte.
pub open spec fn qxfer_piece(reply: Seq<u8>) -> Seq<u8> {
    qxfer_chunk_spec(reply.skip(1))
}

/// While a `qXfer` fetch is under way, its data is the pieces of the
/// replies, joined in order.
pub proof fn law_qxfer_fetch_concatenates(replies: Seq<Seq<u8>>)
    requires
        forall|k: int|
            0 <= k < replies.len() ==> (#[trigger] qxfer_state(replies.take(k)) matches Ok((
                _,
                more,
            )) && more),
    ensures
        qxfer_state(replies) matches Ok((data, _)) ==> data == join_bytes(
            replies.map_values(|r: Seq<u8>| qxfer_piece(r)),
        ),
    decreases replies.len(),
{
    if replies.len() > 0 {
        let front = replies.drop_last();
        assert forall|k: int| 0 <= k < front.len() implies (#[trigger] qxfer_state(front.take(k))
            matches Ok((_, more)) && more) by {
            assert(front.take(k) =~= replies.take(k));
        }
        law_qxfer_fetch_concatenates(front);
        assert(replies.take(front.len() as int) =~= front);
        assert(replies.map_values(|r: Seq<u8>| qxfer_piece(r)).drop_last() =~= front.map_values(
            |r: Seq<u8>| qxfer_piece(r),
        ));
    }
}

/// A `p` reply of hex digits (either case) that does not start with an
/// uppercase `E` and is not all `x` decodes to the bytes its digit pairs
/// spell; a lowercase `e` is an ordinary digit.
pub proof fn law_reg_reply_hex_digits(reply: Seq<u8>)
    requires
        reply.len() % 2 == 0,
        all_hex_bytes(reply),
        !all_x(reply),
        reply[0] != 0x45,
    ensures
        reg_reply_spec(reply) == Ok::<Seq<u8>, ErrorView>(hex_payload(reply)),
        hex_reply_spec(reply, "g"@) == Ok::<Seq<u8>, ErrorView>(hex_payload(reply)),
{
    lemma_hex_bytes_valid_utf8(reply);
    lemma_hex_pairs_ok(reply);
    vstd::utf8::decode_utf8_encode_utf8(reply);
}

/// What a stub sends for some bytes — their lowercase hex — reads back as
/// those bytes, as one register (`p`), as all registers (`g`), and as
/// memory (`m`) when at least as many bytes were asked for.
pub proof fn law_hex_replies_read_back(data: Seq<u8>, want: nat)
    requires
        data.len() > 0,
    ensures
        reg_reply_spec(hex_encode_spec(data)) == Ok::<Seq<u8>, ErrorView>(data),
        hex_reply_spec(hex_encode_spec(data), "g"@) == Ok::<Seq<u8>, ErrorView>(data),
        want <= data.len() ==> mem_reply_spec(hex_encode_spec(data), want) == Ok::<
            Seq<u8>,
            ErrorView,
        >(data),
{
    let e = hex_encode_spec(data);
    law_hex_decode_inverts_encode(data);
    lemma_hex_encode_digits(data);
    assert(0x30 <= e[0] <= 0x39 || 0x61 <= e[0] <= 0x66);
    assert(!all_x(e)) by {
        assert(e[0] != 0x78);
    }
    law_reg_reply_hex_digits(e);
}

/// A memory request asks for at least 16 bytes, and, once the packet
/// holds 64 bytes, for as many as the packet can carry back as hex with 32
/// bytes to spare.
pub proof fn law_mem_chunk_fits(packet_size: nat)
    ensures
        mem_chunk_len_spec(packet_size) >= 16,
        packet_size >= 64 ==> 2 * mem_chunk_len_spec(packet_size) + 32 <= packet_size < 2
            * mem_chunk_len_spec(packet_size) + 34,
{
}

/// A target description request asks for the packet size less 64 bytes,
/// at most 0xfffe, and for nothing when the packet is smaller than 64.
pub proof fn law_qxfer_chunk_fits(packet_size: nat)
    ensures
        qxfer_chunk_len_spec(packet_size) <= 0xfffe,
        packet_size < 64 ==> qxfer_chunk_len_spec(packet_size) == 0,
        packet_size >= 64 ==> qxfer_chunk_len_spec(packet_size) + 64 <= packet_size && (
        qxfer_chunk_len_spec(packet_size) == 0xfffe || qxfer_chunk_len_spec(packet_size) + 64
            == packet_size),
{
}

} // verus!
