//! GDB remote serial protocol client logic (QEMU gdbstub and
//! gdbserver-compatible): stop replies, hex payloads, and the numbers and
//! lists inside replies. The socket itself is driven by the caller.
use vstd::prelude::*;
use vstd::utf8::*;
use crate::gdbproto::{hex_digit_spec, hex_val_spec};
use crate::text::{
    after_last, after_last_spec, chars_of, has_prefix, lossy_utf8, pieces_view, push_chars,
    push_str, slice_to_vec_from, split_chars, split_once, split_once_spec, split_spec,
    strip_prefix_lit, string_from_chars, utf8_lossy,
};

verus! {

broadcast use vstd::utf8::encode_utf8_decode_utf8, vstd::utf8::encode_utf8_valid_utf8;

#[verifier::external_type_specification]
#[verifier::external_body]
pub struct ExIoError(std::io::Error);

#[derive(Debug, Clone, PartialEq, Eq)]
pub enum StopKind {
    Signal(u8),
    SwBreak,
    HwBreak,
    Watch { write: bool, read: bool, addr: Option<u64> },
    Other(String),
}

#[derive(Debug, Clone, PartialEq, Eq)]
pub struct StopInfo {
    pub thread: Option<u64>,
    pub stop_kind: StopKind,
    pub raw: String,
}

#[derive(Debug)]
pub enum GdbError {
    Io(std::io::Error),
    Protocol(String),
    Unsupported(String),
}

pub type Result<T> = std::result::Result<T, GdbError>;

impl From<std::io::Error> for GdbError {
    fn from(e: std::io::Error) -> (r: Self)
        ensures
            r@ == ErrorView::Io,
    {
        GdbError::Io(e)
    }
}

impl vstd::std_specs::convert::FromSpecImpl<std::io::Error> for GdbError {
    open spec fn obeys_from_spec() -> bool {
        true
    }

    open spec fn from_spec(e: std::io::Error) -> GdbError {
        GdbError::Io(e)
    }
}

/// Why the target stopped, with any text as characters.
pub enum StopKindView {
    Signal(u8),
    SwBreak,
    HwBreak,
    Watch { write: bool, read: bool, addr: Option<u64> },
    Other(Seq<char>),
}

pub struct StopInfoView {
    pub thread: Option<u64>,
    pub stop_kind: StopKindView,
    pub raw: Seq<char>,
}

/// An error with its message as characters; I/O errors carry no message
/// here.
pub enum ErrorView {
    Io,
    Protocol(Seq<char>),
    Unsupported(Seq<char>),
}

impl View for StopKind {
    type V = StopKindView;

    open spec fn view(&self) -> StopKindView {
        match self {
            StopKind::Signal(s) => StopKindView::Signal(*s),
            StopKind::SwBreak => StopKindView::SwBreak,
            StopKind::HwBreak => StopKindView::HwBreak,
            StopKind::Watch { write, read, addr } => StopKindView::Watch {
                write: *write,
                read: *read,
                addr: *addr,
            },
            StopKind::Other(s) => StopKindView::Other(s@),
        }
    }
}

impl View for StopInfo {
    type V = StopInfoView;

    open spec fn view(&self) -> StopInfoView {
        StopInfoView { thread: self.thread, stop_kind: self.stop_kind@, raw: self.raw@ }
    }
}

impl View for GdbError {
    type V = ErrorView;

    open spec fn view(&self) -> ErrorView {
        match self {
            GdbError::Io(_) => ErrorView::Io,
            GdbError::Protocol(m) => ErrorView::Protocol(m@),
            GdbError::Unsupported(m) => ErrorView::Unsupported(m@),
        }
    }
}

/// A result seen through the views of its two sides.
pub open spec fn result_view<T: View>(r: Result<T>) -> std::result::Result<T::V, ErrorView> {
    match r {
        Ok(v) => Ok(v@),
        Err(e) => Err(e@),
    }
}

/// A protocol error whose message is `prefix` followed by `tail`.
fn protocol_error(prefix: &str, tail: &str) -> (e: GdbError)
    ensures
        e@ == ErrorView::Protocol(prefix@ + tail@),
{
    GdbError::Protocol(String::from_str(prefix).concat(tail))
}

/// A protocol error whose message is `prefix` followed by the characters `tail`.
fn protocol_error_chars(prefix: &str, tail: &[char]) -> (e: GdbError)
    ensures
        e@ == ErrorView::Protocol(prefix@ + tail@),
{
    let mut m: Vec<char> = Vec::new();
    push_str(&mut m, prefix);
    push_chars(&mut m, tail);
    GdbError::Protocol(string_from_chars(m.as_slice()))
}

// ---------------------------------------------------------------------------
// Hex payloads
// ---------------------------------------------------------------------------

/// Each byte as two lowercase hex digits (`{:02x}`).
pub open spec fn hex_encode_spec(data: Seq<u8>) -> Seq<u8>
    decreases data.len(),
{
    if data.len() == 0 {
        Seq::empty()
    } else {
        hex_encode_spec(data.drop_last()) + seq![
            hex_digit_spec(data.last() / 16),
            hex_digit_spec(data.last() % 16),
        ]
    }
}

/// Decoding pairs of hex digits; on failure, the first character that is
/// not a hex digit.
pub open spec fn hex_pairs_spec(b: Seq<u8>) -> std::result::Result<Seq<u8>, u8>
    decreases b.len(),
{
    if b.len() < 2 {
        Ok(Seq::empty())
    } else {
        match (hex_val_spec(b[0]), hex_val_spec(b[1])) {
            (None, _) => Err(b[0]),
            (Some(_), None) => Err(b[1]),
            (Some(hi), Some(lo)) => match hex_pairs_spec(b.skip(2)) {
                Ok(rest) => Ok(seq![(hi * 16 + lo) as u8] + rest),
                Err(c) => Err(c),
            },
        }
    }
}

/// The message for a character that is not a hex digit, as
/// `format!("bad hex digit {:?} ({:#x})", c as char, c)` writes it.
pub uninterp spec fn bad_hex_digit_text(c: u8) -> Seq<char>;

/// Calls `format!` with a `Debug`-formatted character. Claimed: the result is
/// `bad_hex_digit_text(c)`; the escaping rules of `Debug` are left to the name.
#[verifier::external_body]
fn bad_hex_digit_message(c: u8) -> (s: String)
    ensures
        s@ == bad_hex_digit_text(c),
{
    format!("bad hex digit {:?} ({:#x})", c as char, c)
}

/// What `hex_decode` returns for a string whose UTF-8 bytes are `b`.
pub open spec fn hex_decode_spec(s: Seq<char>) -> std::result::Result<Seq<u8>, ErrorView> {
    let b = encode_utf8(s);
    if b.len() % 2 != 0 {
        Err(ErrorView::Protocol("odd-length hex: "@ + s))
    } else {
        match hex_pairs_spec(b) {
            Ok(v) => Ok(v),
            Err(c) => Err(ErrorView::Protocol(bad_hex_digit_text(c))),
        }
    }
}

/// Lowercase hex encoding, two digits per byte.
pub fn hex_encode(data: &[u8]) -> (out: Vec<u8>)
    ensures
        out@ == hex_encode_spec(data@),
        out@.len() == 2 * data@.len(),
{
    let mut out: Vec<u8> = Vec::new();
    let mut i: usize = 0;
    while i < data.len()
        invariant
            i <= data@.len(),
            out@ == hex_encode_spec(data@.take(i as int)),
            out@.len() == 2 * i,
        decreases data@.len() - i,
    {
        let b = data[i];
        assert(data@.take(i as int + 1).drop_last() =~= data@.take(i as int));
        assert(b >> 4 == b / 16 && b & 0xf == b % 16 && b >> 4 < 16 && b & 0xf < 16) by (bit_vector);
        out.push(nibble_digit(b >> 4));
        out.push(nibble_digit(b & 0xf));
        i = i + 1;
        assert(out@ =~= hex_encode_spec(data@.take(i as int)));
    }
    assert(data@.take(i as int) =~= data@);
    out
}

fn nibble_digit(n: u8) -> (r: u8)
    requires
        n < 16,
    ensures
        r == hex_digit_spec(n),
{
    if n < 10 {
        0x30 + n
    } else {
        0x61 + (n - 10)
    }
}

fn hex_nibble(c: u8) -> (r: Result<u8>)
    ensures
        match r {
            Ok(v) => hex_val_spec(c) == Some(v),
            Err(e) => hex_val_spec(c) is None && e@ == ErrorView::Protocol(bad_hex_digit_text(c)),
        },
{
    if 0x30 <= c && c <= 0x39 {
        Ok(c - 0x30)
    } else if 0x61 <= c && c <= 0x66 {
        Ok(c - 0x61 + 10)
    } else if 0x41 <= c && c <= 0x46 {
        Ok(c - 0x41 + 10)
    } else {
        Err(GdbError::Protocol(bad_hex_digit_message(c)))
    }
}

/// Hex digits, two per byte, either case.
pub fn hex_decode(s: &str) -> (r: Result<Vec<u8>>)
    ensures
        result_view(r) == hex_decode_spec(s@),
{
    let b = s.as_bytes();
    if b.len() % 2 != 0 {
        return Err(protocol_error("odd-length hex: ", s));
    }
    let mut out: Vec<u8> = Vec::new();
    let mut i: usize = 0;
    assert(b@.skip(0) =~= b@);
    proof {
        match hex_pairs_spec(b@) {
            Ok(v) => assert(out@ + v =~= v),
            Err(_) => {},
        }
    }
    while i < b.len()
        invariant
            i <= b@.len(),
            b@ == encode_utf8(s@),
            b@.len() % 2 == 0,
            i % 2 == 0,
            match hex_pairs_spec(b@.skip(i as int)) {
                Ok(rest) => hex_pairs_spec(b@) == Ok::<Seq<u8>, u8>(out@ + rest),
                Err(c) => hex_pairs_spec(b@) == Err::<Seq<u8>, u8>(c),
            },
        decreases b@.len() - i,
    {
        let ghost tail = b@.skip(i as int);
        assert(tail[0] == b@[i as int] && tail[1] == b@[i as int + 1]);
        assert(tail.skip(2) =~= b@.skip(i as int + 2));
        let hi = match hex_nibble(b[i]) {
            Ok(v) => v,
            Err(e) => return Err(e),
        };
        let lo = match hex_nibble(b[i + 1]) {
            Ok(v) => v,
            Err(e) => return Err(e),
        };
        assert(hi < 16 && lo < 16 ==> (hi << 4) | lo == hi * 16 + lo) by (bit_vector);
        let ghost before = out@;
        out.push((hi << 4) | lo);
        i = i + 2;
        proof {
            match hex_pairs_spec(b@.skip(i as int)) {
                Ok(rest) => {
                    assert(before + (seq![out@.last()] + rest) =~= out@ + rest);
                },
                Err(_) => {},
            }
        }
    }
    assert(b@.skip(i as int) =~= Seq::<u8>::empty());
    assert(out@ + Seq::<u8>::empty() =~= out@);
    Ok(out)
}

proof fn lemma_hex_encode_concat(a: Seq<u8>, b: Seq<u8>)
    ensures
        hex_encode_spec(a + b) == hex_encode_spec(a) + hex_encode_spec(b),
    decreases b.len(),
{
    if b.len() == 0 {
        assert(a + b =~= a);
        assert(hex_encode_spec(a) + hex_encode_spec(b) =~= hex_encode_spec(a));
    } else {
        lemma_hex_encode_concat(a, b.drop_last());
        assert((a + b).drop_last() =~= a + b.drop_last());
        let last = seq![hex_digit_spec(b.last() / 16), hex_digit_spec(b.last() % 16)];
        assert(hex_encode_spec(a) + hex_encode_spec(b) =~= hex_encode_spec(a) + hex_encode_spec(
            b.drop_last(),
        ) + last);
    }
}

proof fn lemma_nibble_roundtrip(n: u8)
    requires
        n < 16,
    ensures
        hex_val_spec(hex_digit_spec(n)) == Some(n),
{
}

/// Decoding what `hex_encode` produced gives back the original bytes.
pub proof fn law_hex_decode_inverts_encode(data: Seq<u8>)
    ensures
        hex_pairs_spec(hex_encode_spec(data)) == Ok::<Seq<u8>, u8>(data),
        hex_encode_spec(data).len() == 2 * data.len(),
    decreases data.len(),
{
    if data.len() > 0 {
        let x = data[0];
        let rest = data.drop_first();
        law_hex_decode_inverts_encode(rest);
        reveal_with_fuel(hex_encode_spec, 2);
        assert(seq![x].drop_last() =~= Seq::<u8>::empty());
        let head = seq![hex_digit_spec(x / 16), hex_digit_spec(x % 16)];
        assert(hex_encode_spec(seq![x]) =~= head);
        lemma_hex_encode_concat(seq![x], rest);
        assert(seq![x] + rest =~= data);
        let e = hex_encode_spec(data);
        assert(e =~= head + hex_encode_spec(rest));
        lemma_nibble_roundtrip(x / 16);
        lemma_nibble_roundtrip(x % 16);
        assert(e[0] == hex_digit_spec(x / 16));
        assert(e[1] == hex_digit_spec(x % 16));
        assert(e.skip(2) =~= hex_encode_spec(rest));
        assert(((x / 16) * 16 + x % 16) as u8 == x);
        assert(hex_pairs_spec(e) == Ok::<Seq<u8>, u8>(seq![x] + rest));
        assert(seq![x] + rest =~= data);
    } else {
        assert(data =~= Seq::<u8>::empty());
    }
}

/// `hex_decode` of the text that `hex_encode` produced gives back the bytes.
pub proof fn law_hex_decode_of_encoded_text(data: Seq<u8>, text: Seq<char>)
    requires
        encode_utf8(text) == hex_encode_spec(data),
    ensures
        hex_decode_spec(text) == Ok::<Seq<u8>, ErrorView>(data),
{
    law_hex_decode_inverts_encode(data);
}

// ---------------------------------------------------------------------------
// Hex numbers
// ---------------------------------------------------------------------------

pub open spec fn hex_char_value(c: char) -> Option<nat> {
    let u = c as u32;
    if 0x30 <= u && u <= 0x39 {
        Some((u - 0x30) as nat)
    } else if 0x61 <= u && u <= 0x66 {
        Some((u - 0x61 + 10) as nat)
    } else if 0x41 <= u && u <= 0x46 {
        Some((u - 0x41 + 10) as nat)
    } else {
        None
    }
}

pub open spec fn all_hex(ds: Seq<char>) -> bool {
    forall|i: int| 0 <= i < ds.len() ==> #[trigger] hex_char_value(ds[i]) is Some
}

/// The number that hex digits spell, most significant first.
pub open spec fn hex_value(ds: Seq<char>) -> nat
    decreases ds.len(),
{
    if ds.len() == 0 {
        0
    } else {
        hex_value(ds.drop_last()) * 16 + match hex_char_value(ds.last()) {
            Some(d) => d,
            None => 0,
        }
    }
}

/// `from_str_radix(s, 16)` for an unsigned type whose largest value is
/// `max`: an optional `+`, then at least one hex digit of either case, and
/// nothing else; the value must fit.
pub open spec fn parse_hex_spec(s: Seq<char>, max: nat) -> Option<nat> {
    let ds = if s.len() > 0 && s[0] == '+' {
        s.drop_first()
    } else {
        s
    };
    if ds.len() > 0 && all_hex(ds) && hex_value(ds) <= max {
        Some(hex_value(ds))
    } else {
        None
    }
}

proof fn lemma_hex_value_grows(ds: Seq<char>, k: int)
    requires
        0 <= k <= ds.len(),
    ensures
        hex_value(ds.take(k)) <= hex_value(ds),
    decreases ds.len() - k,
{
    if k < ds.len() {
        lemma_hex_value_grows(ds, k + 1);
        assert(ds.take(k + 1).drop_last() =~= ds.take(k));
    } else {
        assert(ds.take(k) =~= ds);
    }
}

fn hex_char(c: char) -> (r: Option<u64>)
    ensures
        match r {
            Some(v) => hex_char_value(c) == Some(v as nat),
            None => hex_char_value(c) is None,
        },
{
    let u = c as u32;
    if 0x30 <= u && u <= 0x39 {
        Some((u - 0x30) as u64)
    } else if 0x61 <= u && u <= 0x66 {
        Some((u - 0x61 + 10) as u64)
    } else if 0x41 <= u && u <= 0x46 {
        Some((u - 0x41 + 10) as u64)
    } else {
        None
    }
}

/// `from_str_radix(s, 16)` into an unsigned type with largest value `max`.
pub fn parse_hex_bounded(s: &[char], max: u64) -> (r: Option<u64>)
    ensures
        match r {
            Some(v) => parse_hex_spec(s@, max as nat) == Some(v as nat),
            None => parse_hex_spec(s@, max as nat) is None,
        },
{
    let n = s.len();
    let start: usize = if n > 0 && s[0] == '+' {
        1
    } else {
        0
    };
    let ghost ds = if s@.len() > 0 && s@[0] == '+' {
        s@.drop_first()
    } else {
        s@
    };
    assert(ds =~= s@.skip(start as int));
    if start == n {
        return None;
    }
    let mut v: u64 = 0;
    let mut i: usize = start;
    while i < n
        invariant
            start <= i <= n == s@.len(),
            ds == s@.skip(start as int),
            ds == (if s@.len() > 0 && s@[0] == '+' {
                s@.drop_first()
            } else {
                s@
            }),
            all_hex(ds.take(i - start)),
            v as nat == hex_value(ds.take(i - start)),
            v <= max,
        decreases n - i,
    {
        let k = i - start;
        assert(ds[k as int] == s@[i as int]);
        let d = match hex_char(s[i]) {
            Some(d) => d,
            None => {
                assert(!all_hex(ds));
                return None;
            },
        };
        assert(ds.take(k + 1).drop_last() =~= ds.take(k as int));
        assert(ds.take(k + 1).last() == ds[k as int]);
        if d > max || v > (max - d) / 16 {
            proof {
                assert(hex_value(ds.take(k + 1)) > max);
                if all_hex(ds) {
                    lemma_hex_value_grows(ds, k + 1);
                }
            }
            return None;
        }
        v = v * 16 + d;
        i = i + 1;
        assert(all_hex(ds.take(i - start))) by {
            assert forall|j: int| 0 <= j < ds.take(i - start).len() implies #[trigger] hex_char_value(
                ds.take(i - start)[j],
            ) is Some by {
                if j < k {
                    assert(ds.take(i - start)[j] == ds.take(k as int)[j]);
                }
            }
        }
    }
    assert(ds.take(n - start) =~= ds);
    Some(v)
}

/// `u64::from_str_radix(s, 16)`, with a protocol error naming the text.
pub fn parse_u64_hex(s: &[char]) -> (r: Result<u64>)
    ensures
        match r {
            Ok(v) => parse_hex_spec(s@, u64::MAX as nat) == Some(v as nat),
            Err(e) => parse_hex_spec(s@, u64::MAX as nat) is None && e@ == ErrorView::Protocol(
                "bad hex number: "@ + s@,
            ),
        },
{
    match parse_hex_bounded(s, u64::MAX) {
        Some(v) => Ok(v),
        None => Err(protocol_error_chars("bad hex number: ", s)),
    }
}


// ---------------------------------------------------------------------------
// qSupported
// ---------------------------------------------------------------------------

/// The size a `PacketSize=hex` feature announces, if this feature is one and
/// the number fits in a `usize`.
pub open spec fn packet_size_feature(part: Seq<char>) -> Option<nat> {
    if has_prefix(part, "PacketSize="@) {
        parse_hex_spec(part.skip("PacketSize="@.len() as int), usize::MAX as nat)
    } else {
        None
    }
}

/// The first feature, in order, that announces a packet size.
pub open spec fn first_packet_size(parts: Seq<Seq<char>>) -> Option<nat>
    decreases parts.len(),
{
    if parts.len() == 0 {
        None
    } else {
        match packet_size_feature(parts[0]) {
            Some(n) => Some(n),
            None => first_packet_size(parts.drop_first()),
        }
    }
}

/// The packet size a `qSupported` reply announces (`PacketSize=hex` among
/// the `;`-separated features).
pub fn parse_packet_size(qsupported: &str) -> (r: Option<usize>)
    ensures
        match r {
            Some(n) => first_packet_size(split_spec(qsupported@, ';')) == Some(n as nat),
            None => first_packet_size(split_spec(qsupported@, ';')) is None,
        },
{
    let text = chars_of(qsupported);
    let parts = split_chars(text.as_slice(), ';');
    let mut i: usize = 0;
    assert(pieces_view(parts@).skip(0) =~= pieces_view(parts@));
    while i < parts.len()
        invariant
            i <= parts@.len(),
            pieces_view(parts@) == split_spec(qsupported@, ';'),
            first_packet_size(split_spec(qsupported@, ';')) == first_packet_size(
                pieces_view(parts@).skip(i as int),
            ),
        decreases parts@.len() - i,
    {
        let ghost rest = pieces_view(parts@).skip(i as int);
        assert(rest[0] == parts@[i as int]@);
        assert(rest.drop_first() =~= pieces_view(parts@).skip(i as int + 1));
        match strip_prefix_lit(parts[i].as_slice(), "PacketSize=") {
            Some(sz) => {
                match parse_hex_bounded(sz.as_slice(), usize::MAX as u64) {
                    Some(n) => {
                        return Some(n as usize);
                    },
                    None => {},
                }
            },
            None => {},
        }
        i = i + 1;
    }
    None
}

// ---------------------------------------------------------------------------
// Stop replies
// ---------------------------------------------------------------------------

/// The signal number's text: bytes 1 and 2 of the reply.
pub open spec fn signal_text(b: Seq<u8>) -> Seq<char> {
    decode_utf8(b.take(3)).drop_first()
}

/// The `;`-separated fields after the signal number.
pub open spec fn fields_text(b: Seq<u8>) -> Seq<char> {
    decode_utf8(b.skip(3))
}

/// A `T`/`S` reply of at least three bytes whose byte 3 falls inside a
/// character: the text cannot be cut after the signal number.
pub open spec fn stop_reply_cuts_char(b: Seq<u8>) -> bool {
    b.len() >= 3 && (b[0] == 0x54 || b[0] == 0x53) && !is_char_boundary(b, 3)
}

/// A thread id as the `thread` field spells it: the last `.`-separated
/// component (`p1.2` with multiprocess), without one leading `-`.
pub open spec fn thread_id_text(v: Seq<char>) -> Seq<char> {
    let t = after_last_spec(v, '.');
    if t.len() > 0 && t[0] == '-' {
        t.drop_first()
    } else {
        t
    }
}

/// What has been gathered from the fields so far: the thread and the stop
/// kind, or the first error.
pub type FieldsAcc = std::result::Result<(Option<u64>, StopKindView), ErrorView>;

/// One `name[:value]` field of a stop reply.
pub open spec fn apply_field(acc: FieldsAcc, f: Seq<char>) -> FieldsAcc {
    match acc {
        Err(e) => Err(e),
        Ok((thread, kind)) => {
            if f.len() == 0 {
                Ok((thread, kind))
            } else {
                let (name, value) = split_once_spec(f, ':');
                if name == "thread"@ {
                    match value {
                        None => Ok((thread, kind)),
                        Some(v) => {
                            let t = thread_id_text(v);
                            if t != "0"@ && t != "-1"@ {
                                match parse_hex_spec(t, u64::MAX as nat) {
                                    Some(n) => Ok((Some(n as u64), kind)),
                                    None => Err(ErrorView::Protocol("bad hex number: "@ + t)),
                                }
                            } else {
                                Ok((thread, kind))
                            }
                        },
                    }
                } else if name == "swbreak"@ {
                    Ok((thread, StopKindView::SwBreak))
                } else if name == "hwbreak"@ {
                    Ok((thread, StopKindView::HwBreak))
                } else if name == "watch"@ || name == "rwatch"@ || name == "awatch"@ {
                    let addr = match value {
                        Some(v) => match parse_hex_spec(v, u64::MAX as nat) {
                            Some(a) => Some(a as u64),
                            None => None,
                        },
                        None => None,
                    };
                    Ok(
                        (
                            thread,
                            StopKindView::Watch {
                                write: name != "rwatch"@,
                                read: name != "watch"@,
                                addr,
                            },
                        ),
                    )
                } else {
                    Ok((thread, kind))
                }
            }
        },
    }
}

pub open spec fn apply_fields(acc: FieldsAcc, fields: Seq<Seq<char>>) -> FieldsAcc
    decreases fields.len(),
{
    if fields.len() == 0 {
        acc
    } else {
        apply_field(apply_fields(acc, fields.drop_last()), fields.last())
    }
}

/// The meaning of a stop reply `Sxx` or `Txx[;name[:value]]...`.
pub open spec fn stop_reply_spec(s: Seq<char>) -> std::result::Result<StopInfoView, ErrorView> {
    let b = encode_utf8(s);
    if b.len() == 0 {
        Err(ErrorView::Protocol("empty stop reply"@))
    } else if b[0] != 0x54 && b[0] != 0x53 {
        Err(ErrorView::Protocol("not a stop reply: "@ + s))
    } else if b.len() < 3 {
        Err(ErrorView::Protocol("short stop reply: "@ + s))
    } else {
        match parse_hex_spec(signal_text(b), 255) {
            None => Err(ErrorView::Protocol("bad signal in stop reply: "@ + s)),
            Some(sig) => match apply_fields(
                Ok((None, StopKindView::Signal(sig as u8))),
                split_spec(fields_text(b), ';'),
            ) {
                Ok((thread, kind)) => Ok(StopInfoView { thread, stop_kind: kind, raw: s }),
                Err(e) => Err(e),
            },
        }
    }
}

fn eq_chars(a: &[char], lit: &str) -> (r: bool)
    ensures
        r == (a@ == lit@),
{
    crate::text::eq_lit(a, lit)
}

fn thread_id_of(v: &[char]) -> (t: Vec<char>)
    ensures
        t@ == thread_id_text(v@),
{
    let t = after_last(v, '.');
    if t.len() > 0 && t[0] == '-' {
        slice_to_vec_from(t.as_slice(), 1)
    } else {
        t
    }
}

fn field_step(thread: Option<u64>, kind: StopKind, f: &[char]) -> (r: Result<(Option<u64>, StopKind)>)
    ensures
        match r {
            Ok((t, k)) => apply_field(Ok((thread, kind@)), f@) == Ok::<(Option<u64>, StopKindView), ErrorView>((t, k@)),
            Err(e) => apply_field(Ok((thread, kind@)), f@) == Err::<(Option<u64>, StopKindView), ErrorView>(e@),
        },
{
    if f.len() == 0 {
        return Ok((thread, kind));
    }
    let (name, value) = split_once(f, ':');
    if eq_chars(name.as_slice(), "thread") {
        match value {
            None => Ok((thread, kind)),
            Some(v) => {
                // thread id may be `p1.2` with multiprocess — take last component.
                let t = thread_id_of(v.as_slice());
                if !eq_chars(t.as_slice(), "0") && !eq_chars(t.as_slice(), "-1") {
                    match parse_u64_hex(t.as_slice()) {
                        Ok(n) => Ok((Some(n), kind)),
                        Err(e) => Err(e),
                    }
                } else {
                    Ok((thread, kind))
                }
            },
        }
    } else if eq_chars(name.as_slice(), "swbreak") {
        Ok((thread, StopKind::SwBreak))
    } else if eq_chars(name.as_slice(), "hwbreak") {
        Ok((thread, StopKind::HwBreak))
    } else if eq_chars(name.as_slice(), "watch") || eq_chars(name.as_slice(), "rwatch")
        || eq_chars(name.as_slice(), "awatch") {
        let addr = match value {
            Some(v) => match parse_hex_bounded(v.as_slice(), u64::MAX) {
                Some(a) => Some(a),
                None => None,
            },
            None => None,
        };
        Ok(
            (
                thread,
                StopKind::Watch {
                    write: !eq_chars(name.as_slice(), "rwatch"),
                    read: !eq_chars(name.as_slice(), "watch"),
                    addr,
                },
            ),
        )
    } else {
        Ok((thread, kind))
    }
}

/// Parse `Sxx` or `Txx[;field:value]...` stop replies given as text.
pub fn parse_stop_reply_text(s: &str) -> (r: Result<StopInfo>)
    requires
        !stop_reply_cuts_char(encode_utf8(s@)),
    ensures
        result_view(r) == stop_reply_spec(s@),
{
    let b = s.as_bytes();
    if b.len() == 0 {
        return Err(GdbError::Protocol(String::from_str("empty stop reply")));
    }
    if b[0] != 0x54 && b[0] != 0x53 {
        return Err(protocol_error("not a stop reply: ", s));
    }
    if s.len() < 3 {
        return Err(protocol_error("short stop reply: ", s));
    }
    let (head, rest) = s.split_at(3);
    assert(encode_utf8(s@).subrange(0, 3) =~= encode_utf8(s@).take(3));
    assert(encode_utf8(s@).subrange(3, encode_utf8(s@).len() as int) =~= encode_utf8(s@).skip(3));
    assert(decode_utf8(encode_utf8(head@)) == head@);
    assert(decode_utf8(encode_utf8(rest@)) == rest@);
    let head_chars = chars_of(head);
    if head_chars.len() == 0 {
        // The first byte is ASCII, so the head holds at least one character.
        proof {
            assert(encode_utf8(head@).len() == 3);
            reveal_with_fuel(encode_utf8, 1);
        }
        return Err(protocol_error("bad signal in stop reply: ", s));
    }
    let sig_chars = slice_to_vec_from(head_chars.as_slice(), 1);
    assert(sig_chars@ == signal_text(encode_utf8(s@)));
    let sig = match parse_hex_bounded(sig_chars.as_slice(), 255) {
        Some(v) => v as u8,
        None => return Err(protocol_error("bad signal in stop reply: ", s)),
    };
    let rest_chars = chars_of(rest);
    let fields = split_chars(rest_chars.as_slice(), ';');
    assert(pieces_view(fields@) == split_spec(fields_text(encode_utf8(s@)), ';'));
    let mut thread: Option<u64> = None;
    let mut kind = StopKind::Signal(sig);
    let ghost init: FieldsAcc = Ok((None, StopKindView::Signal(sig)));
    let mut i: usize = 0;
    assert(pieces_view(fields@).take(0) =~= Seq::<Seq<char>>::empty());
    assert(apply_fields(init, split_spec(fields_text(encode_utf8(s@)), ';')) is Err ==> stop_reply_spec(
        s@,
    ) == Err::<StopInfoView, ErrorView>(
        apply_fields(init, split_spec(fields_text(encode_utf8(s@)), ';'))->Err_0,
    ));
    while i < fields.len()
        invariant
            i <= fields@.len(),
            pieces_view(fields@) == split_spec(fields_text(encode_utf8(s@)), ';'),
            apply_fields(init, split_spec(fields_text(encode_utf8(s@)), ';')) is Err
                ==> stop_reply_spec(s@) == Err::<StopInfoView, ErrorView>(
                apply_fields(init, split_spec(fields_text(encode_utf8(s@)), ';'))->Err_0,
            ),
            apply_fields(init, pieces_view(fields@).take(i as int)) == Ok::<(Option<u64>, StopKindView), ErrorView>((thread, kind@)),
        decreases fields@.len() - i,
    {
        assert(pieces_view(fields@).take(i as int + 1).drop_last() =~= pieces_view(fields@).take(
            i as int,
        ));
        assert(pieces_view(fields@).take(i as int + 1).last() == fields@[i as int]@);
        match field_step(thread, kind, fields[i].as_slice()) {
            Ok((t, k)) => {
                thread = t;
                kind = k;
            },
            Err(e) => {
                proof {
                    lemma_apply_fields_err(init, pieces_view(fields@), i as int + 1, e@);
                }
                assert(apply_fields(init, split_spec(fields_text(encode_utf8(s@)), ';')) == Err::<
                    (Option<u64>, StopKindView),
                    ErrorView,
                >(e@));
                return Err(e);
            },
        }
        i = i + 1;
    }
    assert(pieces_view(fields@).take(i as int) =~= pieces_view(fields@));
    Ok(StopInfo { thread, stop_kind: kind, raw: s.to_owned() })
}

proof fn lemma_apply_fields_err(init: FieldsAcc, fields: Seq<Seq<char>>, k: int, e: ErrorView)
    requires
        0 <= k <= fields.len(),
        apply_fields(init, fields.take(k)) == Err::<(Option<u64>, StopKindView), ErrorView>(e),
    ensures
        apply_fields(init, fields) == Err::<(Option<u64>, StopKindView), ErrorView>(e),
    decreases fields.len() - k,
{
    if k < fields.len() {
        assert(fields.take(k + 1).drop_last() =~= fields.take(k));
        lemma_apply_fields_err(init, fields, k + 1, e);
    } else {
        assert(fields.take(k) =~= fields);
    }
}

/// Parse `Sxx` or `Txx[;field:value]...` stop replies. The packet is read
/// as UTF-8, invalid sequences replaced.
pub fn parse_stop_reply(packet: &[u8]) -> (r: Result<StopInfo>)
    requires
        !stop_reply_cuts_char(encode_utf8(lossy_utf8(packet@))),
    ensures
        result_view(r) == stop_reply_spec(lossy_utf8(packet@)),
{
    let s = utf8_lossy(packet);
    parse_stop_reply_text(s.as_str())
}

/// `parse_stop_reply` where it can cut the text after the signal number;
/// `None` where byte 3 of the decoded text falls inside a character.
pub fn checked_parse_stop_reply(packet: &[u8]) -> (r: Option<Result<StopInfo>>)
    ensures
        match r {
            Some(res) => !stop_reply_cuts_char(encode_utf8(lossy_utf8(packet@)))
                && result_view(res) == stop_reply_spec(lossy_utf8(packet@)),
            None => stop_reply_cuts_char(encode_utf8(lossy_utf8(packet@))),
        },
{
    let s = utf8_lossy(packet);
    let t = s.as_str();
    let b = t.as_bytes();
    if b.len() >= 3 && (b[0] == 0x54 || b[0] == 0x53) && !t.is_char_boundary(3) {
        None
    } else {
        Some(parse_stop_reply(packet))
    }
}

/// How `name:value` splits at its first `:` when `name` holds none.
proof fn lemma_split_field(name: Seq<char>, v: Seq<char>)
    requires
        forall|i: int| 0 <= i < name.len() ==> name[i] != ':',
    ensures
        split_once_spec(name + ":"@ + v, ':') == (name, Some(v)),
{
    reveal_strlit(":");
    let f = name + ":"@ + v;
    let k = name.len() as int;
    assert(crate::text::is_first_index(f, ':', k));
    let c = choose|c: int| crate::text::is_first_index(f, ':', c);
    crate::text::lemma_first_index_unique(f, ':', k, c);
    assert(f.take(k) =~= name);
    assert(f.skip(k + 1) =~= v);
}

/// A `watch`, `rwatch` or `awatch` field whose value is a hex number that
/// fits in 64 bits makes the stop a watchpoint hit at that address: `watch`
/// is a write, `rwatch` a read, `awatch` both. The thread found so far is
/// kept.
pub proof fn law_watch_field_address(thread: Option<u64>, kind: StopKindView, v: Seq<char>)
    requires
        v.len() > 0,
        all_hex(v),
        hex_value(v) <= u64::MAX,
    ensures
        apply_field(Ok((thread, kind)), "watch:"@ + v) == Ok::<(Option<u64>, StopKindView), ErrorView>(
            (thread, StopKindView::Watch { write: true, read: false, addr: Some(hex_value(v) as u64) }),
        ),
        apply_field(Ok((thread, kind)), "rwatch:"@ + v) == Ok::<(Option<u64>, StopKindView), ErrorView>(
            (thread, StopKindView::Watch { write: false, read: true, addr: Some(hex_value(v) as u64) }),
        ),
        apply_field(Ok((thread, kind)), "awatch:"@ + v) == Ok::<(Option<u64>, StopKindView), ErrorView>(
            (thread, StopKindView::Watch { write: true, read: true, addr: Some(hex_value(v) as u64) }),
        ),
{
    reveal_strlit("watch:");
    reveal_strlit("rwatch:");
    reveal_strlit("awatch:");
    reveal_strlit("watch");
    reveal_strlit("rwatch");
    reveal_strlit("awatch");
    reveal_strlit("thread");
    reveal_strlit("swbreak");
    reveal_strlit("hwbreak");
    reveal_strlit(":");
    assert(hex_char_value(v[0]) is Some);
    assert(v[0] != '+');
    assert("watch:"@ + v =~= "watch"@ + ":"@ + v);
    assert("rwatch:"@ + v =~= "rwatch"@ + ":"@ + v);
    assert("awatch:"@ + v =~= "awatch"@ + ":"@ + v);
    lemma_split_field("watch"@, v);
    lemma_split_field("rwatch"@, v);
    lemma_split_field("awatch"@, v);
    assert("watch"@ != "thread"@ && "watch"@ != "swbreak"@ && "watch"@ != "hwbreak"@);
    assert("watch"@ != "rwatch"@ && "watch"@ != "awatch"@);
    assert("rwatch"@[0] != "thread"@[0]);
    assert("rwatch"@ != "thread"@ && "rwatch"@ != "swbreak"@ && "rwatch"@ != "hwbreak"@);
    assert("awatch"@[0] != "thread"@[0]);
    assert("awatch"@ != "thread"@ && "awatch"@ != "swbreak"@ && "awatch"@ != "hwbreak"@);
    assert("awatch"@[0] != "rwatch"@[0]);
    assert("awatch"@ != "rwatch"@ && "awatch"@ != "watch"@);
}

/// A stop reply `S` or `T` followed by two hex digits and nothing else is
/// that signal, with no thread.
pub proof fn law_signal_reply(lead: char, c1: char, c2: char)
    requires
        lead == 'S' || lead == 'T',
        hex_char_value(c1) is Some,
        hex_char_value(c2) is Some,
    ensures
        stop_reply_spec(seq![lead, c1, c2]) == Ok::<StopInfoView, ErrorView>(
            StopInfoView {
                thread: None,
                stop_kind: StopKindView::Signal(
                    (hex_char_value(c1)->Some_0 * 16 + hex_char_value(c2)->Some_0) as u8,
                ),
                raw: seq![lead, c1, c2],
            },
        ),
{
    let s = seq![lead, c1, c2];
    assert(is_ascii_chars(s)) by {
        assert forall|i: int| 0 <= i < s.len() implies '\0' <= #[trigger] s[i] <= '\u{7f}' by {
            assert(i == 0 || i == 1 || i == 2);
        }
    }
    vstd::utf8::is_ascii_chars_encode_utf8(s);
    let b = encode_utf8(s);
    assert(b[0] == lead as u8);
    assert(b.take(3) =~= b);
    assert(signal_text(b) =~= seq![c1, c2]);
    assert(b.skip(3) =~= Seq::<u8>::empty());
    assert(fields_text(b) =~= Seq::<char>::empty());
    assert(seq![c1, c2].drop_last() =~= seq![c1]);
    assert(seq![c1].drop_last() =~= Seq::<char>::empty());
    let v1 = hex_char_value(c1)->Some_0;
    let v2 = hex_char_value(c2)->Some_0;
    assert(hex_value(Seq::<char>::empty()) == 0);
    assert(seq![c1].last() == c1);
    assert(seq![c1, c2].last() == c2);
    assert(hex_value(seq![c1]) == v1);
    assert(hex_value(seq![c1, c2]) == v1 * 16 + v2);
    let ds = seq![c1, c2];
    assert(all_hex(ds)) by {
        assert forall|i: int| 0 <= i < 2 implies #[trigger] hex_char_value(ds[i]) is Some by {
            assert(i == 0 || i == 1);
        }
    }
    assert(split_spec(Seq::<char>::empty(), ';') == seq![Seq::<char>::empty()]);
    let acc: FieldsAcc = Ok((None, StopKindView::Signal((v1 * 16 + v2) as u8)));
    assert(seq![Seq::<char>::empty()].drop_last() =~= Seq::<Seq<char>>::empty());
    assert(apply_fields(acc, Seq::<Seq<char>>::empty()) == acc);
    assert(seq![Seq::<char>::empty()].last().len() == 0);
    assert(apply_fields(acc, seq![Seq::<char>::empty()]) == acc);
}

/// A `swbreak` or `hwbreak` field makes the stop a software or hardware
/// breakpoint, whatever value it carries; the thread found so far is kept.
pub proof fn law_break_fields(thread: Option<u64>, kind: StopKindView, v: Seq<char>)
    ensures
        apply_field(Ok((thread, kind)), "swbreak:"@ + v) == Ok::<(Option<u64>, StopKindView), ErrorView>(
            (thread, StopKindView::SwBreak),
        ),
        apply_field(Ok((thread, kind)), "hwbreak:"@ + v) == Ok::<(Option<u64>, StopKindView), ErrorView>(
            (thread, StopKindView::HwBreak),
        ),
{
    reveal_strlit("swbreak:");
    reveal_strlit("hwbreak:");
    reveal_strlit("swbreak");
    reveal_strlit("hwbreak");
    reveal_strlit("thread");
    reveal_strlit(":");
    assert("swbreak:"@ + v =~= "swbreak"@ + ":"@ + v);
    assert("hwbreak:"@ + v =~= "hwbreak"@ + ":"@ + v);
    lemma_split_field("swbreak"@, v);
    lemma_split_field("hwbreak"@, v);
    assert("swbreak"@.len() != "thread"@.len() && "hwbreak"@.len() != "thread"@.len());
    assert("hwbreak"@[0] != "swbreak"@[0]);
}

/// A `thread` field whose value is a hex number other than `0` that fits
/// in 64 bits sets the thread to that number; the stop kind is kept.
pub proof fn law_thread_field(thread: Option<u64>, kind: StopKindView, v: Seq<char>)
    requires
        v.len() > 0,
        all_hex(v),
        v != "0"@,
        hex_value(v) <= u64::MAX,
    ensures
        apply_field(Ok((thread, kind)), "thread:"@ + v) == Ok::<(Option<u64>, StopKindView), ErrorView>(
            (Some(hex_value(v) as u64), kind),
        ),
{
    reveal_strlit("thread:");
    reveal_strlit("thread");
    reveal_strlit(":");
    reveal_strlit("-1");
    assert("thread:"@ + v =~= "thread"@ + ":"@ + v);
    lemma_split_field("thread"@, v);
    assert(hex_char_value(v[0]) is Some);
    assert(forall|k: int| 0 <= k < v.len() ==> v[k] != '.') by {
        assert forall|k: int| 0 <= k < v.len() implies v[k] != '.' by {
            assert(hex_char_value(v[k]) is Some);
        }
    }
    assert(!(exists|k: int| crate::text::is_last_index(v, '.', k)));
    assert(after_last_spec(v, '.') == v);
    assert(thread_id_text(v) == v);
    assert(v[0] != '-' && v[0] != '+');
    assert(v != "-1"@) by {
        assert("-1"@[0] == '-');
    }
}

} // verus!
