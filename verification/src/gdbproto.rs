//! GDB remote serial protocol (RSP) framing: checksums, `$payload#cc`
//! packets, the binary escaping of the `X` packet, and an incremental
//! decoder for the byte stream coming back from a stub. No I/O here.
use vstd::prelude::*;

verus! {

/// `$`: starts a packet.
pub const PACKET_START: u8 = 0x24;
/// `#`: ends a payload; two checksum digits follow.
pub const CHECKSUM_MARK: u8 = 0x23;
/// `+`: acknowledgement.
pub const ACK: u8 = 0x2b;
/// `-`: request for retransmission.
pub const NACK: u8 = 0x2d;
/// Ctrl-C: interrupt the target.
pub const INTERRUPT: u8 = 0x03;
/// `}`: escape prefix in binary data.
pub const ESCAPE: u8 = 0x7d;

// ---------------------------------------------------------------------------
// Checksums and hex digits
// ---------------------------------------------------------------------------

/// The RSP checksum: the sum of all payload bytes, modulo 256.
pub open spec fn checksum_spec(s: Seq<u8>) -> u8
    decreases s.len(),
{
    if s.len() == 0 {
        0
    } else {
        ((checksum_spec(s.drop_last()) + s.last()) % 256) as u8
    }
}

/// The checksum of one byte is that byte.
pub proof fn law_checksum_of_one_byte(b: u8)
    ensures
        checksum_spec(seq![b]) == b,
{
    assert(seq![b].drop_last() =~= Seq::<u8>::empty());
    assert(checksum_spec(seq![b].drop_last()) == 0);
    assert(seq![b].last() == b);
}

/// The checksum of two pieces joined is the sum of their checksums modulo
/// 256, whatever their lengths: every byte of a payload counts.
pub proof fn law_checksum_of_concat(a: Seq<u8>, b: Seq<u8>)
    ensures
        checksum_spec(a + b) as int == (checksum_spec(a) + checksum_spec(b)) % 256,
    decreases b.len(),
{
    if b.len() == 0 {
        assert(a + b =~= a);
    } else {
        law_checksum_of_concat(a, b.drop_last());
        assert((a + b).drop_last() =~= a + b.drop_last());
        assert((a + b).last() == b.last());
        let x = checksum_spec(a) as int;
        let y = checksum_spec(b.drop_last()) as int;
        let z = b.last() as int;
        assert(((x + y) % 256 + z) % 256 == (x + (y + z) % 256) % 256) by (nonlinear_arith)
            requires
                0 <= x < 256,
                0 <= y < 256,
                0 <= z < 256,
        ;
    }
}

/// Lowercase hex digit of a nibble.
pub open spec fn hex_digit_spec(n: u8) -> u8 {
    if n < 10 {
        (48 + n) as u8
    } else {
        (97 + n - 10) as u8
    }
}

/// Value of an ASCII hex digit (either case), if it is one.
pub open spec fn hex_val_spec(c: u8) -> Option<u8> {
    if 48 <= c <= 57 {
        Some((c - 48) as u8)
    } else if 97 <= c <= 102 {
        Some((c - 97 + 10) as u8)
    } else if 65 <= c <= 70 {
        Some((c - 65 + 10) as u8)
    } else {
        None
    }
}

/// Checksum of a payload; wraps around at 256.
pub fn checksum(payload: &[u8]) -> (r: u8)
    ensures
        r == checksum_spec(payload@),
{
    let mut acc: u8 = 0;
    let mut i: usize = 0;
    while i < payload.len()
        invariant
            i <= payload@.len(),
            acc == checksum_spec(payload@.take(i as int)),
        decreases payload@.len() - i,
    {
        assert(payload@.take(i as int + 1).drop_last() =~= payload@.take(i as int));
        acc = acc.wrapping_add(payload[i]);
        i = i + 1;
    }
    assert(payload@.take(i as int) =~= payload@);
    acc
}

fn hex_digit(n: u8) -> (r: u8)
    requires
        n < 16,
    ensures
        r == hex_digit_spec(n),
{
    if n < 10 {
        0x30 + n
    } else {
        0x61 + (n - 10)
    }
}

fn hex_val(c: u8) -> (r: Option<u8>)
    ensures
        r == hex_val_spec(c),
{
    if 0x30 <= c && c <= 0x39 {
        Some(c - 0x30)
    } else if 0x61 <= c && c <= 0x66 {
        Some(c - 0x61 + 10)
    } else if 0x41 <= c && c <= 0x46 {
        Some(c - 0x41 + 10)
    } else {
        None
    }
}

// ---------------------------------------------------------------------------
// Packet framing
// ---------------------------------------------------------------------------

/// `$` payload `#` followed by the checksum as two lowercase hex digits.
pub open spec fn encode_packet_spec(payload: Seq<u8>) -> Seq<u8> {
    let cs = checksum_spec(payload);
    seq![PACKET_START] + payload + seq![CHECKSUM_MARK, hex_digit_spec(cs / 16), hex_digit_spec(cs % 16)]
}

/// `$` payload `#` cc — cc is two lowercase hex digits.
pub fn encode_packet(payload: &[u8]) -> (out: Vec<u8>)
    ensures
        out@ == encode_packet_spec(payload@),
{
    let mut out: Vec<u8> = Vec::new();
    out.push(PACKET_START);
    out.extend_from_slice(payload);
    out.push(CHECKSUM_MARK);
    let cs = checksum(payload);
    assert(cs >> 4 == cs / 16 && cs >> 4 < 16) by (bit_vector);
    assert(cs & 0xf == cs % 16 && cs & 0xf < 16) by (bit_vector);
    out.push(hex_digit(cs >> 4));
    out.push(hex_digit(cs & 0xf));
    assert(out@ =~= encode_packet_spec(payload@));
    out
}

// ---------------------------------------------------------------------------
// Binary escaping
// ---------------------------------------------------------------------------

/// Bytes that must not appear raw inside a binary payload.
pub open spec fn needs_escape(b: u8) -> bool {
    b == ESCAPE || b == 0x7e || b == CHECKSUM_MARK || b == PACKET_START
}

pub open spec fn escape_byte(b: u8) -> Seq<u8> {
    if needs_escape(b) {
        seq![ESCAPE, b ^ 0x20]
    } else {
        seq![b]
    }
}

/// Each byte escaped in turn.
pub open spec fn escape_spec(data: Seq<u8>) -> Seq<u8>
    decreases data.len(),
{
    if data.len() == 0 {
        Seq::empty()
    } else {
        escape_spec(data.drop_last()) + escape_byte(data.last())
    }
}

/// Undo the escaping from the front; `None` when the input ends in a lone
/// escape byte.
pub open spec fn unescape_spec(data: Seq<u8>) -> Option<Seq<u8>>
    decreases data.len(),
{
    if data.len() == 0 {
        Some(Seq::empty())
    } else if data[0] == ESCAPE {
        if data.len() < 2 {
            None
        } else {
            match unescape_spec(data.skip(2)) {
                Some(rest) => Some(seq![data[1] ^ 0x20] + rest),
                None => None,
            }
        }
    } else {
        match unescape_spec(data.skip(1)) {
            Some(rest) => Some(seq![data[0]] + rest),
            None => None,
        }
    }
}

/// RSP binary escaping used by the `X` (write memory) packet:
/// 0x7d escape character, following byte XOR 0x20.
pub fn escape(data: &[u8]) -> (out: Vec<u8>)
    ensures
        out@ == escape_spec(data@),
{
    let mut out: Vec<u8> = Vec::new();
    let mut i: usize = 0;
    while i < data.len()
        invariant
            i <= data@.len(),
            out@ == escape_spec(data@.take(i as int)),
        decreases data@.len() - i,
    {
        let b = data[i];
        assert(data@.take(i as int + 1).drop_last() =~= data@.take(i as int));
        if b == ESCAPE || b == 0x7e || b == CHECKSUM_MARK || b == PACKET_START {
            out.push(ESCAPE);
            out.push(b ^ 0x20);
        } else {
            out.push(b);
        }
        assert(out@ =~= escape_spec(data@.take(i as int + 1)));
        i = i + 1;
    }
    assert(data@.take(i as int) =~= data@);
    out
}

/// Undo `escape`. Fails exactly when the data ends in an escape byte that
/// has nothing after it.
pub fn unescape(data: &[u8]) -> (r: Result<Vec<u8>, String>)
    ensures
        match r {
            Ok(out) => unescape_spec(data@) == Some(out@),
            Err(msg) => unescape_spec(data@) is None && msg@ == "trailing escape byte"@,
        },
{
    let mut out: Vec<u8> = Vec::new();
    let mut i: usize = 0;
    assert(data@.skip(0) =~= data@);
    proof {
        match unescape_spec(data@) {
            Some(r) => assert(out@ + r =~= r),
            None => {},
        }
    }
    while i < data.len()
        invariant
            i <= data@.len(),
            match unescape_spec(data@.skip(i as int)) {
                Some(rest) => unescape_spec(data@) == Some(out@ + rest),
                None => unescape_spec(data@) is None,
            },
        decreases data@.len() - i,
    {
        let ghost tail = data@.skip(i as int);
        let ghost before = out@;
        if data[i] == ESCAPE {
            if i + 1 >= data.len() {
                return Err(String::from_str("trailing escape byte"));
            }
            assert(tail.skip(2) =~= data@.skip(i as int + 2));
            out.push(data[i + 1] ^ 0x20);
            i += 2;
        } else {
            assert(tail.skip(1) =~= data@.skip(i as int + 1));
            out.push(data[i]);
            i += 1;
        }
        proof {
            match unescape_spec(data@.skip(i as int)) {
                Some(rest) => {
                    assert(before + (seq![out@.last()] + rest) =~= out@ + rest);
                },
                None => {},
            }
        }
    }
    assert(data@.skip(i as int) =~= Seq::<u8>::empty());
    assert(out@ + Seq::<u8>::empty() =~= out@);
    Ok(out)
}

// ---------------------------------------------------------------------------
// Incremental decoding
// ---------------------------------------------------------------------------

#[derive(Debug, Clone, PartialEq, Eq)]
pub enum Decoded {
    Packet(Vec<u8>),
    Ack,
    Nack,
    Interrupt,
}

/// What a decoded item stands for, with the packet payload as a sequence.
pub enum DecodedView {
    Packet(Seq<u8>),
    Ack,
    Nack,
    Interrupt,
}

impl View for Decoded {
    type V = DecodedView;

    open spec fn view(&self) -> DecodedView {
        match self {
            Decoded::Packet(p) => DecodedView::Packet(p@),
            Decoded::Ack => DecodedView::Ack,
            Decoded::Nack => DecodedView::Nack,
            Decoded::Interrupt => DecodedView::Interrupt,
        }
    }
}

pub open spec fn decoded_views(s: Seq<Decoded>) -> Seq<DecodedView> {
    s.map_values(|d: Decoded| d@)
}

#[derive(Clone, Copy)]
enum State {
    Idle,
    Data,
    /// Saw `#`, collecting two checksum digits.
    Checksum { chars: [u8; 2], n: usize },
}

/// Where the decoder stands between two bytes.
pub enum Phase {
    /// Between packets.
    Idle,
    /// Inside a packet, collecting payload bytes.
    Data,
    /// After `#`; holds the checksum characters seen so far.
    Checksum(Seq<u8>),
}

/// The decoder as a mathematical value.
pub struct DecoderModel {
    pub phase: Phase,
    pub payload: Seq<u8>,
    pub no_ack: bool,
    pub bad_checksums: nat,
}

/// Value of a checksum character, with anything that is not a hex digit
/// counted as zero.
pub open spec fn digit_or_zero(c: u8) -> u8 {
    match hex_val_spec(c) {
        Some(v) => v,
        None => 0,
    }
}

/// The checksum spelled by the two characters after `#`.
pub open spec fn received_checksum(hi: u8, lo: u8) -> u8 {
    (digit_or_zero(hi) * 16 + digit_or_zero(lo)) as u8
}

/// One byte of input: the next decoder state and what completed, if anything.
pub open spec fn step(m: DecoderModel, b: u8) -> (DecoderModel, Option<DecodedView>) {
    match m.phase {
        Phase::Idle => {
            if b == PACKET_START {
                (DecoderModel { phase: Phase::Data, payload: Seq::empty(), ..m }, None)
            } else if b == ACK {
                (m, Some(DecodedView::Ack))
            } else if b == NACK {
                (m, Some(DecodedView::Nack))
            } else if b == INTERRUPT {
                (m, Some(DecodedView::Interrupt))
            } else {
                (m, None)
            }
        },
        Phase::Data => {
            if b == CHECKSUM_MARK {
                (DecoderModel { phase: Phase::Checksum(Seq::empty()), ..m }, None)
            } else if b == PACKET_START {
                (DecoderModel { payload: Seq::empty(), ..m }, None)
            } else {
                (DecoderModel { payload: m.payload.push(b), ..m }, None)
            }
        },
        Phase::Checksum(chars) => {
            if chars.len() == 0 {
                (DecoderModel { phase: Phase::Checksum(seq![b]), ..m }, None)
            } else if received_checksum(chars[0], b) == checksum_spec(m.payload) {
                (
                    DecoderModel { phase: Phase::Idle, payload: Seq::empty(), ..m },
                    Some(DecodedView::Packet(m.payload)),
                )
            } else {
                (
                    DecoderModel {
                        phase: Phase::Idle,
                        payload: Seq::empty(),
                        bad_checksums: m.bad_checksums + 1,
                        ..m
                    },
                    None,
                )
            }
        },
    }
}

/// Feeding a whole byte sequence: final state and everything that completed,
/// in order.
pub open spec fn run(m: DecoderModel, bytes: Seq<u8>) -> (DecoderModel, Seq<DecodedView>)
    decreases bytes.len(),
{
    if bytes.len() == 0 {
        (m, Seq::empty())
    } else {
        let (m1, out1) = run(m, bytes.drop_last());
        let (m2, d) = step(m1, bytes.last());
        match d {
            Some(x) => (m2, out1.push(x)),
            None => (m2, out1),
        }
    }
}

pub struct Decoder {
    state: State,
    payload: Vec<u8>,
    no_ack: bool,
    /// Number of packets dropped for bad checksum (caller may respond with Nack when !no_ack).
    pub bad_checksums: u64,
}

impl View for Decoder {
    type V = DecoderModel;

    closed spec fn view(&self) -> DecoderModel {
        DecoderModel {
            phase: match self.state {
                State::Idle => Phase::Idle,
                State::Data => Phase::Data,
                State::Checksum { chars, n } => Phase::Checksum(chars@.take(n as int)),
            },
            payload: self.payload@,
            no_ack: self.no_ack,
            bad_checksums: self.bad_checksums as nat,
        }
    }
}

impl Decoder {
    /// The decoder's own invariant: at most one checksum digit is pending.
    pub closed spec fn wf(&self) -> bool {
        match self.state {
            State::Checksum { chars, n } => n < 2,
            _ => true,
        }
    }

    pub fn new() -> (d: Self)
        ensures
            d.wf(),
            d@ == (DecoderModel {
                phase: Phase::Idle,
                payload: Seq::empty(),
                no_ack: false,
                bad_checksums: 0,
            }),
    {
        Decoder { state: State::Idle, payload: Vec::new(), no_ack: false, bad_checksums: 0 }
    }

    pub fn set_no_ack(&mut self, no_ack: bool)
        ensures
            final(self)@ == (DecoderModel { no_ack, ..old(self)@ }),
            final(self).wf() == old(self).wf(),
    {
        self.no_ack = no_ack;
    }

    /// How many packets were dropped for a bad checksum.
    pub fn bad_checksum_count(&self) -> (n: u64)
        ensures
            n as nat == self@.bad_checksums,
    {
        self.bad_checksums
    }

    pub fn no_ack(&self) -> (r: bool)
        ensures
            r == self@.no_ack,
    {
        self.no_ack
    }

    fn step_byte(&mut self, b: u8) -> (r: Option<Decoded>)
        requires
            old(self).wf(),
            old(self).bad_checksums < u64::MAX,
        ensures
            final(self).wf(),
            final(self).bad_checksums as nat == final(self)@.bad_checksums,
            final(self)@ == step(old(self)@, b).0,
            match r {
                Some(d) => step(old(self)@, b).1 == Some(d@),
                None => step(old(self)@, b).1 is None,
            },
    {
        match self.state {
            State::Idle => {
                if b == PACKET_START {
                    self.payload.clear();
                    self.state = State::Data;
                    assert(self.payload@ =~= Seq::<u8>::empty());
                    None
                } else if b == ACK {
                    Some(Decoded::Ack)
                } else if b == NACK {
                    Some(Decoded::Nack)
                } else if b == INTERRUPT {
                    Some(Decoded::Interrupt)
                } else {
                    // stray noise between packets
                    None
                }
            },
            State::Data => {
                if b == CHECKSUM_MARK {
                    let chars: [u8; 2] = [0, 0];
                    self.state = State::Checksum { chars, n: 0 };
                    assert(chars@.take(0) =~= Seq::<u8>::empty());
                    None
                } else if b == PACKET_START {
                    // New packet started without terminator — restart (malformed stream).
                    self.payload.clear();
                    assert(self.payload@ =~= Seq::<u8>::empty());
                    None
                } else {
                    self.payload.push(b);
                    None
                }
            },
            State::Checksum { chars, n } => {
                self.state = State::Idle;
                if n == 0 {
                    let chars2: [u8; 2] = [b, chars[1]];
                    self.state = State::Checksum { chars: chars2, n: 1 };
                    assert(chars2@.take(1) =~= seq![b]);
                    return None;
                }
                assert(chars@.take(n as int)[0] == chars[0]);
                let hi = hex_val(chars[0]).unwrap_or(0);
                let lo = hex_val(b).unwrap_or(0);
                assert(hi < 16 && lo < 16 ==> (hi << 4) | lo == hi * 16 + lo) by (bit_vector);
                let got = (hi << 4) | lo;
                let expect = checksum(self.payload.as_slice());
                if got == expect {
                    let mut taken: Vec<u8> = Vec::new();
                    std::mem::swap(&mut taken, &mut self.payload);
                    assert(self.payload@ =~= Seq::<u8>::empty());
                    Some(Decoded::Packet(taken))
                } else {
                    self.bad_checksums += 1;
                    self.payload.clear();
                    assert(self.payload@ =~= Seq::<u8>::empty());
                    None
                }
            },
        }
    }

    /// Feed raw bytes from the socket; returns everything that completed.
    /// Handles packets split arbitrarily across feeds. Bad-checksum packets are dropped.
    pub fn feed(&mut self, bytes: &[u8]) -> (out: Vec<Decoded>)
        requires
            old(self).wf(),
            old(self)@.bad_checksums + bytes@.len() <= u64::MAX,
        ensures
            final(self).wf(),
            (final(self)@, decoded_views(out@)) == run(old(self)@, bytes@),
    {
        let mut out: Vec<Decoded> = Vec::new();
        let mut i: usize = 0;
        while i < bytes.len()
            invariant
                i <= bytes@.len(),
                self.wf(),
                self.bad_checksums <= old(self).bad_checksums + i,
                old(self).bad_checksums + bytes@.len() <= u64::MAX,
                (self@, decoded_views(out@)) == run(old(self)@, bytes@.take(i as int)),
            decreases bytes@.len() - i,
        {
            let ghost before = out@;
            assert(bytes@.take(i as int + 1).drop_last() =~= bytes@.take(i as int));
            match self.step_byte(bytes[i]) {
                Some(d) => {
                    out.push(d);
                    assert(decoded_views(out@) =~= decoded_views(before).push(d@));
                },
                None => {},
            }
            i = i + 1;
        }
        assert(bytes@.take(i as int) =~= bytes@);
        out
    }
}

// ---------------------------------------------------------------------------
// Laws
// ---------------------------------------------------------------------------

proof fn lemma_escape_concat(a: Seq<u8>, b: Seq<u8>)
    ensures
        escape_spec(a + b) == escape_spec(a) + escape_spec(b),
    decreases b.len(),
{
    if b.len() == 0 {
        assert(a + b =~= a);
        assert(escape_spec(a) + escape_spec(b) =~= escape_spec(a));
    } else {
        lemma_escape_concat(a, b.drop_last());
        assert((a + b).drop_last() =~= a + b.drop_last());
        assert(escape_spec(a) + escape_spec(b) =~= escape_spec(a) + escape_spec(b.drop_last())
            + escape_byte(b.last()));
    }
}

proof fn lemma_unescape_prepend(b: u8, rest: Seq<u8>)
    ensures
        unescape_spec(escape_byte(b) + rest) == match unescape_spec(rest) {
            Some(r) => Some(seq![b] + r),
            None => None,
        },
{
    let e = escape_byte(b) + rest;
    if needs_escape(b) {
        assert(e.skip(2) =~= rest);
        assert((b ^ 0x20) ^ 0x20 == b) by (bit_vector);
        assert(e[0] == ESCAPE);
        assert(e[1] == b ^ 0x20);
    } else {
        assert(e.skip(1) =~= rest);
        assert(e[0] == b);
    }
}

/// Escaping works byte by byte: `}` (0x7d), `~` (0x7e), `#` and `$` become
/// 0x7d followed by the byte XOR 0x20, every other byte is kept, and the
/// escaping of joined data is the escapings joined.
pub proof fn law_escape_bytes(b: u8, x: Seq<u8>, y: Seq<u8>)
    ensures
        escape_spec(seq![0x7du8]) == seq![0x7du8, 0x5du8],
        escape_spec(seq![0x7eu8]) == seq![0x7du8, 0x5eu8],
        escape_spec(seq![0x23u8]) == seq![0x7du8, 0x03u8],
        escape_spec(seq![0x24u8]) == seq![0x7du8, 0x04u8],
        b != 0x7d && b != 0x7e && b != 0x23 && b != 0x24 ==> escape_spec(seq![b]) == seq![b],
        escape_spec(x + y) == escape_spec(x) + escape_spec(y),
{
    lemma_escape_concat(x, y);
    assert forall|c: u8| #[trigger] escape_spec(seq![c]) == escape_byte(c) by {
        assert(seq![c].drop_last() =~= Seq::<u8>::empty());
        assert(escape_spec(Seq::<u8>::empty()) == Seq::<u8>::empty());
        assert(seq![c].last() == c);
        assert(Seq::<u8>::empty() + escape_byte(c) =~= escape_byte(c));
    }
    assert(0x7du8 ^ 0x20 == 0x5d) by (bit_vector);
    assert(0x7eu8 ^ 0x20 == 0x5e) by (bit_vector);
    assert(0x23u8 ^ 0x20 == 0x03) by (bit_vector);
    assert(0x24u8 ^ 0x20 == 0x04) by (bit_vector);
    assert(escape_spec(seq![0x7du8]) == escape_byte(0x7d));
    assert(escape_spec(seq![0x7eu8]) == escape_byte(0x7e));
    assert(escape_spec(seq![0x23u8]) == escape_byte(0x23));
    assert(escape_spec(seq![0x24u8]) == escape_byte(0x24));
    assert(escape_spec(seq![b]) == escape_byte(b));
}

/// An escape byte followed by any byte stands for that byte XOR 0x20, and
/// an escape byte with nothing after it is an error.
pub proof fn law_unescape_pair(x: u8)
    ensures
        unescape_spec(seq![0x7du8, x]) == Some(seq![x ^ 0x20]),
        unescape_spec(seq![0x7du8]) is None,
{
    let d = seq![0x7du8, x];
    assert(d.len() == 2 && d[0] == 0x7d && d[1] == x);
    assert(d.skip(2) =~= Seq::<u8>::empty());
    assert(unescape_spec(Seq::<u8>::empty()) == Some(Seq::<u8>::empty()));
    assert(seq![x ^ 0x20] + Seq::<u8>::empty() =~= seq![x ^ 0x20]);
    assert(seq![0x7du8].len() == 1 && seq![0x7du8][0] == 0x7d);
}

/// The checksum digits are lowercase hex: digit `n` is the `n`-th
/// character of `0123456789abcdef`.
pub proof fn law_hex_digits_lowercase(n: u8)
    requires
        n < 16,
    ensures
        hex_digit_spec(n) as char == "0123456789abcdef"@[n as int],
{
    reveal_strlit("0123456789abcdef");
}

/// Unescaping what `escape` produced gives back the original bytes.
pub proof fn law_unescape_inverts_escape(data: Seq<u8>)
    ensures
        unescape_spec(escape_spec(data)) == Some(data),
    decreases data.len(),
{
    if data.len() == 0 {
    } else {
        let rest = data.drop_first();
        law_unescape_inverts_escape(rest);
        assert(data =~= seq![data[0]] + rest);
        lemma_escape_concat(seq![data[0]], rest);
        assert(seq![data[0]].drop_last() =~= Seq::<u8>::empty());
        reveal_with_fuel(escape_spec, 2);
        assert(Seq::<u8>::empty() + escape_byte(data[0]) =~= escape_byte(data[0]));
        assert(escape_spec(seq![data[0]]) =~= escape_byte(data[0]));
        lemma_unescape_prepend(data[0], escape_spec(rest));
        assert(seq![data[0]] + rest =~= data);
    }
}

/// Escaped data never contains the framing characters `#`, `$`, nor 0x7e.
pub proof fn law_escape_avoids_framing_bytes(data: Seq<u8>)
    ensures
        forall|i: int|
            0 <= i < escape_spec(data).len() ==> {
                let b = #[trigger] escape_spec(data)[i];
                b != CHECKSUM_MARK && b != PACKET_START && b != 0x7e
            },
    decreases data.len(),
{
    if data.len() > 0 {
        law_escape_avoids_framing_bytes(data.drop_last());
        let x = data.last();
        assert(needs_escape(x) ==> (x ^ 0x20) != 0x23 && (x ^ 0x20) != 0x24 && (x ^ 0x20)
            != 0x7e) by (bit_vector);
        let p = escape_spec(data.drop_last());
        assert forall|i: int| 0 <= i < escape_spec(data).len() implies {
            let b = #[trigger] escape_spec(data)[i];
            b != 0x23 && b != 0x24 && b != 0x7e
        } by {
            if i < p.len() {
                assert(escape_spec(data)[i] == p[i]);
            }
        }
    }
}

/// Feeding bytes in two pieces gives the same state and the same output as
/// feeding them at once: packets may be split anywhere across feeds.
pub proof fn law_feed_split(m: DecoderModel, a: Seq<u8>, b: Seq<u8>)
    ensures
        run(m, a + b) == ({
            let (m1, o1) = run(m, a);
            let (m2, o2) = run(m1, b);
            (m2, o1 + o2)
        }),
    decreases b.len(),
{
    if b.len() == 0 {
        assert(a + b =~= a);
        let (m1, o1) = run(m, a);
        assert(o1 + Seq::<DecodedView>::empty() =~= o1);
    } else {
        law_feed_split(m, a, b.drop_last());
        assert((a + b).drop_last() =~= a + b.drop_last());
        assert((a + b).last() == b.last());
        let (m1, o1) = run(m, a);
        let (mb, ob) = run(m1, b.drop_last());
        let (m2, d) = step(mb, b.last());
        match d {
            Some(x) => {
                assert(o1 + ob.push(x) =~= (o1 + ob).push(x));
            },
            None => {},
        }
    }
}

proof fn lemma_run_payload(m: DecoderModel, p: Seq<u8>)
    requires
        m.phase is Data,
        forall|i: int| 0 <= i < p.len() ==> #[trigger] p[i] != CHECKSUM_MARK && p[i] != PACKET_START,
    ensures
        run(m, p) == (DecoderModel { payload: m.payload + p, ..m }, Seq::<DecodedView>::empty()),
    decreases p.len(),
{
    if p.len() == 0 {
        assert(m.payload + p =~= m.payload);
    } else {
        lemma_run_payload(m, p.drop_last());
        assert(p.last() == p[p.len() - 1]);
        assert((m.payload + p.drop_last()).push(p.last()) =~= m.payload + p);
    }
}

/// A packet built by `encode_packet`, fed to a decoder that sits between
/// packets, comes out as exactly that packet, and the decoder is back
/// between packets — provided the payload holds neither `$` nor `#`.
pub proof fn law_decode_inverts_encode(m: DecoderModel, payload: Seq<u8>)
    requires
        m.phase is Idle,
        forall|i: int|
            0 <= i < payload.len() ==> #[trigger] payload[i] != CHECKSUM_MARK && payload[i] != PACKET_START,
    ensures
        run(m, encode_packet_spec(payload)) == (
            DecoderModel { phase: Phase::Idle, payload: Seq::empty(), ..m },
            seq![DecodedView::Packet(payload)],
        ),
{
    let cs = checksum_spec(payload);
    let hi = hex_digit_spec(cs / 16);
    let lo = hex_digit_spec(cs % 16);
    let start = seq![PACKET_START];
    let tail = seq![CHECKSUM_MARK, hi, lo];
    let m0 = DecoderModel { phase: Phase::Data, payload: Seq::empty(), ..m };
    // `$`
    reveal_with_fuel(run, 2);
    assert(start.drop_last() =~= Seq::<u8>::empty());
    assert(run(m, start) == (m0, Seq::<DecodedView>::empty()));
    // payload
    lemma_run_payload(m0, payload);
    assert(Seq::<u8>::empty() + payload =~= payload);
    let m1 = DecoderModel { payload: payload, ..m0 };
    law_feed_split(m, start, payload);
    assert(Seq::<DecodedView>::empty() + Seq::<DecodedView>::empty() =~= Seq::<DecodedView>::empty());
    // `#` and the two digits
    assert(cs / 16 < 16 && cs % 16 < 16);
    assert(received_checksum(hi, lo) == cs) by {
        assert(digit_or_zero(hi) == cs / 16);
        assert(digit_or_zero(lo) == cs % 16);
    }
    reveal_with_fuel(run, 4);
    assert(tail.drop_last() =~= seq![CHECKSUM_MARK, hi]);
    assert(tail.drop_last().drop_last() =~= seq![CHECKSUM_MARK]);
    assert(tail.drop_last().drop_last().drop_last() =~= Seq::<u8>::empty());
    assert(run(m1, tail).1 =~= seq![DecodedView::Packet(payload)]);
    law_feed_split(m, start + payload, tail);
    assert(start + payload + tail =~= encode_packet_spec(payload));
    assert(Seq::<DecodedView>::empty() + seq![DecodedView::Packet(payload)] =~= seq![
        DecodedView::Packet(payload),
    ]);
}


/// A framed packet whose two checksum characters do not spell its
/// payload's checksum is dropped: nothing comes out, the decoder is back
/// between packets, and one more bad checksum is counted.
pub proof fn law_bad_checksum_dropped(m: DecoderModel, payload: Seq<u8>, hi: u8, lo: u8)
    requires
        m.phase is Idle,
        forall|i: int|
            0 <= i < payload.len() ==> #[trigger] payload[i] != CHECKSUM_MARK && payload[i] != PACKET_START,
        received_checksum(hi, lo) != checksum_spec(payload),
    ensures
        run(m, seq![PACKET_START] + payload + seq![CHECKSUM_MARK, hi, lo]) == (
            DecoderModel {
                phase: Phase::Idle,
                payload: Seq::empty(),
                bad_checksums: m.bad_checksums + 1,
                ..m
            },
            Seq::<DecodedView>::empty(),
        ),
{
    let start = seq![PACKET_START];
    let tail = seq![CHECKSUM_MARK, hi, lo];
    let m0 = DecoderModel { phase: Phase::Data, payload: Seq::empty(), ..m };
    reveal_with_fuel(run, 2);
    assert(start.drop_last() =~= Seq::<u8>::empty());
    assert(run(m, start) == (m0, Seq::<DecodedView>::empty()));
    lemma_run_payload(m0, payload);
    assert(Seq::<u8>::empty() + payload =~= payload);
    let m1 = DecoderModel { payload: payload, ..m0 };
    law_feed_split(m, start, payload);
    assert(Seq::<DecodedView>::empty() + Seq::<DecodedView>::empty() =~= Seq::<DecodedView>::empty());
    reveal_with_fuel(run, 4);
    assert(tail.drop_last() =~= seq![CHECKSUM_MARK, hi]);
    assert(tail.drop_last().drop_last() =~= seq![CHECKSUM_MARK]);
    assert(tail.drop_last().drop_last().drop_last() =~= Seq::<u8>::empty());
    assert(run(m1, tail).1 =~= Seq::<DecodedView>::empty());
    law_feed_split(m, start + payload, tail);
}

} // verus!
