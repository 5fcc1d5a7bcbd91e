//! What a GDB remote client remembers between reads and writes of its
//! socket: the stream decoder, decoded items not yet consumed, replies put
//! aside while waiting for a stop, the negotiated mode, and whether a resume
//! is in flight. The caller owns the socket; this decides what to do with
//! what it reads and whether a command may be sent.
use vstd::prelude::*;
use std::collections::VecDeque;
use crate::gdbproto::{decoded_views, run, Decoded, DecodedView, Decoder, DecoderModel};
use crate::gdb_remote::{
    checked_parse_stop_reply, first_packet_size, parse_packet_size, result_view,
    stop_reply_cuts_char, stop_reply_spec, ErrorView, GdbError, Result, StopInfo, StopInfoView,
    StopKind, StopKindView,
};
use crate::packets::{is_ok_reply, reply_is_ok};
use crate::text::{chars_of, contains_lit, contains_spec, lossy_utf8, split_spec, utf8_lossy};
use vstd::utf8::encode_utf8;

verus! {

/// Packet size assumed until the stub announces one.
pub const DEFAULT_PACKET_SIZE: usize = 0x4000;

pub struct RemoteState {
    decoder: Decoder,
    no_ack: bool,
    /// Max payload the stub advertised (PacketSize=hex); default if unknown.
    packet_size: usize,
    qsupported: String,
    /// Decoded events already read from the socket but not yet consumed;
    /// a single read() can carry a reply plus an async notification.
    pending: VecDeque<Decoded>,
    /// Non-stop packets seen while awaiting a stop reply (kept so a later
    /// reply wait can still surface them if they were command replies).
    orphan_replies: VecDeque<Vec<u8>>,
    /// Set after vCont;c/s until a stop reply is read. While set, the stub's
    /// next bytes are that stop — any Hg/m/g would steal them and desync.
    resume_in_flight: bool,
}

/// The client state as a mathematical value.
pub struct RemoteModel {
    pub decoder: DecoderModel,
    pub no_ack: bool,
    pub packet_size: nat,
    pub qsupported: Seq<char>,
    pub pending: Seq<DecodedView>,
    pub orphans: Seq<Seq<u8>>,
    pub resume_in_flight: bool,
}

pub open spec fn payload_views(s: Seq<Vec<u8>>) -> Seq<Seq<u8>> {
    s.map_values(|v: Vec<u8>| v@)
}

impl View for RemoteState {
    type V = RemoteModel;

    closed spec fn view(&self) -> RemoteModel {
        RemoteModel {
            decoder: self.decoder@,
            no_ack: self.no_ack,
            packet_size: self.packet_size as nat,
            qsupported: self.qsupported@,
            pending: decoded_views(self.pending@),
            orphans: payload_views(self.orphan_replies@),
            resume_in_flight: self.resume_in_flight,
        }
    }
}

/// The first payload among the pending items, and what is left after it;
/// acknowledgements and interrupts before it are dropped.
pub open spec fn next_packet(pending: Seq<DecodedView>) -> (Option<Seq<u8>>, Seq<DecodedView>)
    decreases pending.len(),
{
    if pending.len() == 0 {
        (None, Seq::empty())
    } else {
        match pending[0] {
            DecodedView::Packet(p) => (Some(p), pending.drop_first()),
            _ => next_packet(pending.drop_first()),
        }
    }
}

/// A payload whose first byte is `T`, `S`, `W` or `X`: the answer to a
/// resume.
pub open spec fn is_stop_lead(payload: Seq<u8>) -> bool {
    payload.len() > 0 && (payload[0] == 0x54 || payload[0] == 0x53 || payload[0] == 0x57
        || payload[0] == 0x58)
}

/// The message when a command is attempted while the target runs.
pub open spec fn running_message() -> Seq<char> {
    "target is running (resume in flight); wait for stop before Hg/m/g"@
}

/// The state once `bytes` more have been read from the socket.
pub open spec fn ingested(m: RemoteModel, bytes: Seq<u8>) -> RemoteModel {
    RemoteModel {
        decoder: run(m.decoder, bytes).0,
        pending: m.pending + run(m.decoder, bytes).1,
        ..m
    }
}

/// The state once a resume has been sent.
pub open spec fn resumed(m: RemoteModel) -> RemoteModel {
    RemoteModel { resume_in_flight: true, ..m }
}

/// The state once `payload` has been read while waiting for a stop.
pub open spec fn after_payload(m: RemoteModel, payload: Seq<u8>) -> RemoteModel {
    RemoteModel { resume_in_flight: m.resume_in_flight && !is_stop_lead(payload), ..m }
}

/// The reply a wait takes next — the payload and whether to acknowledge
/// it — and the state after: replies put aside come first and are not
/// acknowledged; otherwise the next queued payload, acknowledged unless in
/// no-ack mode. `None` when there is nothing to take.
pub open spec fn reply_step_spec(m: RemoteModel) -> (Option<(Seq<u8>, bool)>, RemoteModel) {
    if m.orphans.len() > 0 {
        (Some((m.orphans[0], false)), RemoteModel { orphans: m.orphans.drop_first(), ..m })
    } else {
        let (p, rest) = next_packet(m.pending);
        (
            match p {
                Some(p) => Some((p, !m.no_ack)),
                None => None,
            },
            RemoteModel { pending: rest, ..m },
        )
    }
}

/// What a reply wait does next.
pub enum ReplyStep {
    /// A reply; acknowledge it first when the flag says so.
    Ready(Vec<u8>, bool),
    /// Nothing is queued: read from the socket and try again.
    NeedInput,
}

pub open spec fn reply_step_view(r: ReplyStep) -> Option<(Seq<u8>, bool)> {
    match r {
        ReplyStep::Ready(p, ack) => Some((p@, ack)),
        ReplyStep::NeedInput => None,
    }
}

/// What a packet means while waiting for the target to stop.
pub enum StopEvent {
    /// The stop reply, or why it could not be parsed.
    Stop(Result<StopInfo>),
    /// A stop reply whose text cannot be cut after the signal number.
    Unparsable,
    /// Not a stop reply.
    Ignored,
}

/// What a stop packet's text says: `T`/`S` are parsed, `W`/`X` (exit) are
/// kept as text, `None` for anything else.
pub open spec fn stop_event_spec(text: Seq<char>) -> Option<
    Option<std::result::Result<StopInfoView, ErrorView>>,
> {
    if text.len() > 0 && (text[0] == 'T' || text[0] == 'S') {
        if stop_reply_cuts_char(encode_utf8(text)) {
            Some(None)
        } else {
            Some(Some(stop_reply_spec(text)))
        }
    } else if text.len() > 0 && (text[0] == 'W' || text[0] == 'X') {
        Some(
            Some(
                Ok(
                    StopInfoView {
                        thread: None,
                        stop_kind: StopKindView::Other(text),
                        raw: text,
                    },
                ),
            ),
        )
    } else {
        None
    }
}

/// `StopEvent` as its meaning: `None` for ignored, `Some(None)` when
/// unparsable, `Some(Some(result))` for a stop.
pub open spec fn stop_event_view(e: StopEvent) -> Option<
    Option<std::result::Result<StopInfoView, ErrorView>>,
> {
    match e {
        StopEvent::Stop(r) => Some(Some(result_view(r))),
        StopEvent::Unparsable => Some(None),
        StopEvent::Ignored => None,
    }
}

impl RemoteState {
    /// The state's own invariant: the decoder's.
    pub closed spec fn wf(&self) -> bool {
        self.decoder.wf()
    }

    pub fn new() -> (s: Self)
        ensures
            s.wf(),
            s@ == (RemoteModel {
                decoder: DecoderModel {
                    phase: crate::gdbproto::Phase::Idle,
                    payload: Seq::empty(),
                    no_ack: false,
                    bad_checksums: 0,
                },
                no_ack: false,
                packet_size: DEFAULT_PACKET_SIZE as nat,
                qsupported: Seq::empty(),
                pending: Seq::empty(),
                orphans: Seq::empty(),
                resume_in_flight: false,
            }),
    {
        let s = RemoteState {
            decoder: Decoder::new(),
            no_ack: false,
            packet_size: DEFAULT_PACKET_SIZE,
            qsupported: String::new(),
            pending: VecDeque::new(),
            orphan_replies: VecDeque::new(),
            resume_in_flight: false,
        };
        assert(decoded_views(s.pending@) =~= Seq::<DecodedView>::empty());
        assert(payload_views(s.orphan_replies@) =~= Seq::<Seq<u8>>::empty());
        s
    }

    /// True after vCont until the matching stop reply has been observed.
    pub fn resume_in_flight(&self) -> (r: bool)
        ensures
            r == self@.resume_in_flight,
    {
        self.resume_in_flight
    }

    pub fn packet_size(&self) -> (r: usize)
        ensures
            r as nat == self@.packet_size,
    {
        self.packet_size
    }

    pub fn qsupported(&self) -> (r: &str)
        ensures
            r@ == self@.qsupported,
    {
        self.qsupported.as_str()
    }

    /// Whether replies must be acknowledged with `+`.
    pub fn needs_ack(&self) -> (r: bool)
        ensures
            r == !self@.no_ack,
    {
        !self.no_ack
    }

    /// A command may be sent only while no resume is in flight: otherwise
    /// the next reply on the wire is the stop, not the answer to it.
    pub fn check_can_send(&self) -> (r: Result<()>)
        ensures
            match r {
                Ok(()) => !self@.resume_in_flight,
                Err(e) => self@.resume_in_flight && e@ == ErrorView::Protocol(running_message()),
            },
    {
        if self.resume_in_flight {
            return Err(
                GdbError::Protocol(
                    String::from_str(
                        "target is running (resume in flight); wait for stop before Hg/m/g",
                    ),
                ),
            );
        }
        Ok(())
    }

    pub fn mark_resume_in_flight(&mut self)
        requires
            old(self).wf(),
        ensures
            final(self).wf(),
            final(self)@ == resumed(old(self)@),
    {
        self.resume_in_flight = true;
    }

    /// A stop (or exit) payload ends the resume in flight.
    pub fn clear_resume_if_stop(&mut self, payload: &[u8])
        requires
            old(self).wf(),
        ensures
            final(self).wf(),
            final(self)@ == after_payload(old(self)@, payload@),
    {
        if !self.resume_in_flight {
            return;
        }
        if payload.len() > 0 && (payload[0] == 0x54 || payload[0] == 0x53 || payload[0] == 0x57
            || payload[0] == 0x58) {
            self.resume_in_flight = false;
        }
    }

    /// Whether `n` more bytes can be decoded without the bad-checksum count
    /// overflowing.
    pub open spec fn can_ingest_spec(&self, n: nat) -> bool {
        self@.decoder.bad_checksums + n <= u64::MAX
    }

    pub fn can_ingest(&self, n: usize) -> (r: bool)
        requires
            self.wf(),
        ensures
            r == self.can_ingest_spec(n as nat),
    {
        self.decoder.bad_checksum_count() <= u64::MAX - n as u64
    }

    /// Bytes read from the socket: everything they complete joins the
    /// pending items. Zero bytes means the peer closed the connection.
    pub fn ingest(&mut self, bytes: &[u8]) -> (r: Result<()>)
        requires
            old(self).wf(),
            old(self).can_ingest_spec(bytes@.len()),
        ensures
            final(self).wf(),
            match r {
                Ok(()) => bytes@.len() > 0 && final(self)@ == ingested(old(self)@, bytes@),
                Err(e) => bytes@.len() == 0 && final(self)@ == old(self)@ && e@
                    == ErrorView::Protocol("connection closed"@),
            },
    {
        if bytes.len() == 0 {
            return Err(GdbError::Protocol(String::from_str("connection closed")));
        }
        let mut decoded = self.decoder.feed(bytes);
        let ghost before = decoded_views(self.pending@);
        let ghost all = decoded_views(decoded@);
        // Take the items off the end into `reversed`, then off the end of
        // `reversed` into the queue: first in, first queued.
        let mut reversed: Vec<Decoded> = Vec::new();
        while decoded.len() > 0
            invariant
                decoded_views(decoded@) + decoded_views(reversed@).reverse() == all,
            decreases decoded@.len(),
        {
            let ghost d0 = decoded@;
            let ghost r0 = reversed@;
            let d = decoded.pop().unwrap();
            reversed.push(d);
            assert(decoded_views(decoded@) + decoded_views(reversed@).reverse() =~= decoded_views(d0)
                + decoded_views(r0).reverse());
        }
        assert(decoded_views(decoded@) =~= Seq::<DecodedView>::empty());
        assert(decoded_views(reversed@).reverse() =~= all);
        let mut queue: VecDeque<Decoded> = VecDeque::new();
        std::mem::swap(&mut queue, &mut self.pending);
        while reversed.len() > 0
            invariant
                decoded_views(queue@) + decoded_views(reversed@).reverse() == before + all,
            decreases reversed@.len(),
        {
            let ghost p0 = queue@;
            let ghost r0 = reversed@;
            let d = reversed.pop().unwrap();
            queue.push_back(d);
            assert(decoded_views(queue@) + decoded_views(reversed@).reverse() =~= decoded_views(p0)
                + decoded_views(r0).reverse());
        }
        assert(decoded_views(reversed@).reverse() =~= Seq::<DecodedView>::empty());
        assert(decoded_views(queue@) =~= before + all);
        self.pending = queue;
        Ok(())
    }

    /// Takes the next decoded item, if any.
    pub fn pop_pending(&mut self) -> (r: Option<Decoded>)
        requires
            old(self).wf(),
        ensures
            final(self).wf(),
            match r {
                Some(d) => old(self)@.pending.len() > 0 && d@ == old(self)@.pending[0]
                    && final(self)@ == (RemoteModel {
                    pending: old(self)@.pending.drop_first(),
                    ..old(self)@
                }),
                None => old(self)@.pending.len() == 0 && final(self)@ == old(self)@,
            },
    {
        let r = self.pending.pop_front();
        proof {
            if r is Some {
                assert(decoded_views(self.pending@) =~= decoded_views(old(self).pending@).drop_first());
            }
        }
        r
    }

    /// Drops queued acknowledgements and interrupts up to the next payload
    /// and takes it; `None` when no payload is queued (the queue is then
    /// empty). Nothing is acknowledged here.
    pub fn next_pending_packet(&mut self) -> (r: Option<Vec<u8>>)
        requires
            old(self).wf(),
        ensures
            final(self).wf(),
            final(self)@ == (RemoteModel {
                pending: next_packet(old(self)@.pending).1,
                ..old(self)@
            }),
            match r {
                Some(p) => next_packet(old(self)@.pending).0 == Some(p@),
                None => next_packet(old(self)@.pending).0 is None,
            },
    {
        let mut queue: VecDeque<Decoded> = VecDeque::new();
        std::mem::swap(&mut queue, &mut self.pending);
        let ghost start = decoded_views(queue@);
        let mut found: Option<Vec<u8>> = None;
        while queue.len() > 0
            invariant_except_break
                next_packet(start) == next_packet(decoded_views(queue@)),
                found is None,
            ensures
                match found {
                    Some(p) => next_packet(start) == (Some(p@), decoded_views(queue@)),
                    None => next_packet(start) == (None::<Seq<u8>>, decoded_views(queue@)),
                },
            decreases queue@.len(),
        {
            let ghost q0 = decoded_views(queue@);
            let d = queue.pop_front().unwrap();
            assert(decoded_views(queue@) =~= q0.drop_first());
            match d {
                Decoded::Packet(p) => {
                    found = Some(p);
                    break;
                },
                _ => {},
            }
        }
        self.pending = queue;
        found
    }

    /// The next step of waiting for a command's reply: a reply put aside
    /// earlier comes first (not acknowledged), then the next queued payload
    /// (to be acknowledged unless no-ack mode is on).
    pub fn wait_reply_step(&mut self) -> (r: ReplyStep)
        requires
            old(self).wf(),
        ensures
            final(self).wf(),
            (reply_step_view(r), final(self)@) == reply_step_spec(old(self)@),
    {
        // Prefer packets stashed while a previous resume was in flight.
        match self.orphan_replies.pop_front() {
            Some(p) => {
                assert(payload_views(self.orphan_replies@) =~= payload_views(
                    old(self).orphan_replies@,
                ).drop_first());
                return ReplyStep::Ready(p, false);
            },
            None => {},
        }
        match self.next_pending_packet() {
            Some(p) => ReplyStep::Ready(p, !self.no_ack),
            None => ReplyStep::NeedInput,
        }
    }

    /// Records the stub's `qSupported` reply and the packet size it
    /// announces, if any.
    pub fn record_qsupported(&mut self, reply: &[u8])
        requires
            old(self).wf(),
        ensures
            final(self).wf(),
            final(self)@ == (RemoteModel {
                qsupported: lossy_utf8(reply@),
                packet_size: match first_packet_size(split_spec(lossy_utf8(reply@), ';')) {
                    Some(n) => n,
                    None => old(self)@.packet_size,
                },
                ..old(self)@
            }),
    {
        self.qsupported = utf8_lossy(reply);
        match parse_packet_size(self.qsupported.as_str()) {
            Some(sz) => {
                self.packet_size = sz;
            },
            None => {},
        }
    }

    /// Whether the stub offered `QStartNoAckMode`.
    pub fn offers_no_ack(&self) -> (r: bool)
        ensures
            r == contains_spec(self@.qsupported, "QStartNoAckMode"@),
    {
        let q = chars_of(self.qsupported.as_str());
        contains_lit(q.as_slice(), "QStartNoAckMode")
    }

    /// An `OK` to `QStartNoAckMode` switches acknowledgements off on both
    /// sides.
    pub fn accept_no_ack_reply(&mut self, reply: &[u8])
        requires
            old(self).wf(),
        ensures
            final(self).wf(),
            is_ok_reply(reply@) ==> final(self)@ == (RemoteModel {
                no_ack: true,
                decoder: DecoderModel { no_ack: true, ..old(self)@.decoder },
                ..old(self)@
            }),
            !is_ok_reply(reply@) ==> final(self)@ == old(self)@,
    {
        if reply_is_ok(reply) {
            self.no_ack = true;
            self.decoder.set_no_ack(true);
        }
    }

    /// What a payload text means while waiting for the target to stop.
    fn stop_event_of(packet: &[u8]) -> (r: StopEvent)
        ensures
            stop_event_view(r) == stop_event_spec(lossy_utf8(packet@)),
    {
        let text = utf8_lossy(packet);
        let cs = chars_of(text.as_str());
        if cs.len() > 0 && (cs[0] == 'T' || cs[0] == 'S') {
            match checked_parse_stop_reply(packet) {
                Some(r) => StopEvent::Stop(r),
                None => StopEvent::Unparsable,
            }
        } else if cs.len() > 0 && (cs[0] == 'W' || cs[0] == 'X') {
            let raw = text.clone();
            StopEvent::Stop(Ok(StopInfo { thread: None, stop_kind: StopKind::Other(raw), raw: text }))
        } else {
            StopEvent::Ignored
        }
    }

    /// A payload read while blocking for a stop: it ends a resume in flight
    /// if it is a stop or exit, and anything else is ignored.
    pub fn stop_from_packet(&mut self, packet: &[u8]) -> (r: StopEvent)
        requires
            old(self).wf(),
        ensures
            final(self).wf(),
            final(self)@ == after_payload(old(self)@, packet@),
            stop_event_view(r) == stop_event_spec(lossy_utf8(packet@)),
    {
        self.clear_resume_if_stop(packet);
        Self::stop_event_of(packet)
    }

    /// A payload found while polling for a stop: a stop or exit ends the
    /// resume in flight; anything else is put aside as a possible reply to
    /// a later command.
    pub fn stop_from_polled(&mut self, packet: Vec<u8>) -> (r: StopEvent)
        requires
            old(self).wf(),
        ensures
            final(self).wf(),
            stop_event_view(r) == stop_event_spec(lossy_utf8(packet@)),
            stop_event_spec(lossy_utf8(packet@)) is Some ==> final(self)@ == (RemoteModel {
                resume_in_flight: false,
                ..old(self)@
            }),
            stop_event_spec(lossy_utf8(packet@)) is None ==> final(self)@ == (RemoteModel {
                orphans: old(self)@.orphans.push(packet@),
                ..old(self)@
            }),
    {
        let ev = Self::stop_event_of(packet.as_slice());
        match ev {
            StopEvent::Ignored => {
                let ghost before = payload_views(self.orphan_replies@);
                let ghost pv = packet@;
                self.orphan_replies.push_back(packet);
                assert(payload_views(self.orphan_replies@) =~= before.push(pv));
            },
            _ => {
                self.resume_in_flight = false;
            },
        }
        ev
    }
}


/// Reading bytes in two pieces leaves the client where reading them at once
/// does: replies may be split anywhere across reads.
pub proof fn law_ingest_split(m: RemoteModel, a: Seq<u8>, b: Seq<u8>)
    ensures
        ingested(ingested(m, a), b) == ingested(m, a + b),
{
    crate::gdbproto::law_feed_split(m.decoder, a, b);
    let (m1, o1) = run(m.decoder, a);
    let (m2, o2) = run(m1, b);
    assert(m.pending + o1 + o2 =~= m.pending + (o1 + o2));
}

/// Once a resume is sent, commands are refused until a stop or exit
/// payload arrives; other payloads leave the resume in flight.
pub proof fn law_stop_ends_resume(m: RemoteModel, payload: Seq<u8>)
    ensures
        resumed(m).resume_in_flight,
        after_payload(resumed(m), payload).resume_in_flight == !is_stop_lead(payload),
{
}

/// What bears on the client between commands: a resume sent, a payload
/// read while blocking for the stop, or one found while polling for it.
pub enum ClientEvent {
    Resumed,
    Waited(Seq<u8>),
    Polled(Seq<u8>),
}

/// Whether the event is a stop or exit that ends a resume.
pub open spec fn ends_resume(e: ClientEvent) -> bool {
    match e {
        ClientEvent::Resumed => false,
        ClientEvent::Waited(p) => is_stop_lead(p),
        ClientEvent::Polled(p) => stop_event_spec(lossy_utf8(p)) is Some,
    }
}

/// The state after one event, as `mark_resume_in_flight`,
/// `stop_from_packet` and `stop_from_polled` leave it.
pub open spec fn after_event(m: RemoteModel, e: ClientEvent) -> RemoteModel {
    match e {
        ClientEvent::Resumed => resumed(m),
        ClientEvent::Waited(p) => after_payload(m, p),
        ClientEvent::Polled(p) => if ends_resume(e) {
            RemoteModel { resume_in_flight: false, ..m }
        } else {
            RemoteModel { orphans: m.orphans.push(p), ..m }
        },
    }
}

/// The state after the events, in order.
pub open spec fn after_events(m: RemoteModel, es: Seq<ClientEvent>) -> RemoteModel
    decreases es.len(),
{
    if es.len() == 0 {
        m
    } else {
        after_event(after_events(m, es.drop_last()), es.last())
    }
}

/// The state after `k` reply waits have each taken a reply.
pub open spec fn after_reply_steps(m: RemoteModel, k: nat) -> RemoteModel
    decreases k,
{
    if k == 0 {
        m
    } else {
        reply_step_spec(after_reply_steps(m, (k - 1) as nat)).1
    }
}

/// After any run of events a resume is in flight exactly when one was sent
/// and no stop or exit came after it, or one was in flight before and no
/// stop or exit came at all.
pub proof fn law_resume_in_flight(m: RemoteModel, es: Seq<ClientEvent>)
    ensures
        after_events(m, es).resume_in_flight <==> ((exists|i: int|
            0 <= i < es.len() && #[trigger] es[i] is Resumed && forall|j: int|
                i < j < es.len() ==> !ends_resume(#[trigger] es[j])) || (m.resume_in_flight
            && forall|j: int| 0 <= j < es.len() ==> !ends_resume(#[trigger] es[j]))),
    decreases es.len(),
{
    if es.len() > 0 {
        let n = es.len() as int;
        let front = es.drop_last();
        let e = es.last();
        law_resume_in_flight(m, front);
        assert forall|k: int| 0 <= k < n - 1 implies #[trigger] front[k] == es[k] by {}
        assert(es[n - 1] == e);
        let before = after_events(m, front);
        if e is Resumed {
            assert(forall|j: int| n - 1 < j < n ==> !ends_resume(#[trigger] es[j]));
            assert(es[n - 1] is Resumed);
        } else if ends_resume(e) {
            assert(!after_events(m, es).resume_in_flight);
            assert forall|i: int| 0 <= i < n && #[trigger] es[i] is Resumed implies !(forall|j: int|
                i < j < n ==> !ends_resume(#[trigger] es[j])) by {
                assert(i < n - 1);
                assert(ends_resume(es[n - 1]));
            }
            assert(ends_resume(es[n - 1]));
        } else {
            assert(after_events(m, es).resume_in_flight == before.resume_in_flight);
            if before.resume_in_flight {
                if m.resume_in_flight && forall|j: int| 0 <= j < n - 1 ==> !ends_resume(
                    #[trigger] front[j],
                ) {
                    assert forall|j: int| 0 <= j < n implies !ends_resume(#[trigger] es[j]) by {
                        if j < n - 1 {
                            assert(!ends_resume(front[j]));
                        }
                    }
                } else {
                    let i = choose|i: int|
                        0 <= i < n - 1 && #[trigger] front[i] is Resumed && forall|j: int|
                            i < j < n - 1 ==> !ends_resume(#[trigger] front[j]);
                    assert(es[i] is Resumed);
                    assert forall|j: int| i < j < n implies !ends_resume(#[trigger] es[j]) by {
                        if j < n - 1 {
                            assert(!ends_resume(front[j]));
                        }
                    }
                }
            } else {
                assert forall|i: int| 0 <= i < n && #[trigger] es[i] is Resumed implies !(forall|
                    j: int,
                | i < j < n ==> !ends_resume(#[trigger] es[j])) by {
                    assert(i < n - 1);
                    assert(front[i] is Resumed);
                    let j = choose|j: int| i < j < n - 1 && ends_resume(#[trigger] front[j]);
                    assert(ends_resume(es[j]));
                }
                if m.resume_in_flight {
                    let j = choose|j: int| 0 <= j < n - 1 && ends_resume(#[trigger] front[j]);
                    assert(ends_resume(es[j]));
                }
            }
        }
    }
}

proof fn lemma_polls_put_aside(m: RemoteModel, ps: Seq<Seq<u8>>)
    requires
        forall|i: int| 0 <= i < ps.len() ==> stop_event_spec(lossy_utf8(#[trigger] ps[i])) is None,
    ensures
        after_events(m, ps.map_values(|p: Seq<u8>| ClientEvent::Polled(p))).orphans == m.orphans
            + ps,
    decreases ps.len(),
{
    if ps.len() > 0 {
        let front = ps.drop_last();
        assert(ps.map_values(|p: Seq<u8>| ClientEvent::Polled(p)).drop_last() =~= front.map_values(
            |p: Seq<u8>| ClientEvent::Polled(p),
        ));
        assert(stop_event_spec(lossy_utf8(ps[ps.len() - 1])) is None);
        lemma_polls_put_aside(m, front);
        assert(m.orphans + front.push(ps.last()) =~= m.orphans + ps);
    }
}

proof fn lemma_reply_steps_take_put_aside(m: RemoteModel, k: nat)
    requires
        k <= m.orphans.len(),
    ensures
        after_reply_steps(m, k).orphans == m.orphans.skip(k as int),
    decreases k,
{
    if k > 0 {
        lemma_reply_steps_take_put_aside(m, (k - 1) as nat);
        assert(m.orphans.skip(k - 1).drop_first() =~= m.orphans.skip(k as int));
    }
}

/// Payloads put aside while polling for a stop are, in the order they
/// came, the replies the next commands get, and none is acknowledged —
/// when nothing was put aside before them.
pub proof fn law_put_aside_replies_in_order(m: RemoteModel, ps: Seq<Seq<u8>>)
    requires
        m.orphans.len() == 0,
        forall|i: int| 0 <= i < ps.len() ==> stop_event_spec(lossy_utf8(#[trigger] ps[i])) is None,
    ensures
        forall|i: int|
            0 <= i < ps.len() ==> reply_step_spec(
                after_reply_steps(
                    after_events(m, ps.map_values(|p: Seq<u8>| ClientEvent::Polled(p))),
                    i as nat,
                ),
            ).0 == Some((#[trigger] ps[i], false)),
{
    let polled = after_events(m, ps.map_values(|p: Seq<u8>| ClientEvent::Polled(p)));
    lemma_polls_put_aside(m, ps);
    assert(polled.orphans =~= ps);
    assert forall|i: int| 0 <= i < ps.len() implies reply_step_spec(
        after_reply_steps(polled, i as nat),
    ).0 == Some((#[trigger] ps[i], false)) by {
        lemma_reply_steps_take_put_aside(polled, i as nat);
        assert(ps.skip(i)[0] == ps[i]);
    }
}

/// Polling until the stop: payloads found before the stop are put aside,
/// the stop ends the resume in flight, and the put-aside payloads are then,
/// in the order they came, the replies the next commands get, none
/// acknowledged — when nothing was put aside before them.
pub proof fn law_poll_until_stop(m: RemoteModel, ps: Seq<Seq<u8>>, stop: Seq<u8>)
    requires
        m.orphans.len() == 0,
        forall|i: int| 0 <= i < ps.len() ==> stop_event_spec(lossy_utf8(#[trigger] ps[i])) is None,
        stop_event_spec(lossy_utf8(stop)) is Some,
    ensures
        ({
            let end = after_events(
                m,
                ps.map_values(|p: Seq<u8>| ClientEvent::Polled(p)).push(ClientEvent::Polled(stop)),
            );
            &&& !end.resume_in_flight
            &&& forall|i: int|
                0 <= i < ps.len() ==> reply_step_spec(after_reply_steps(end, i as nat)).0 == Some(
                    (#[trigger] ps[i], false),
                )
        }),
{
    let es = ps.map_values(|p: Seq<u8>| ClientEvent::Polled(p));
    let all = es.push(ClientEvent::Polled(stop));
    assert(all.drop_last() =~= es);
    let polled = after_events(m, es);
    let end = after_events(m, all);
    lemma_polls_put_aside(m, ps);
    assert(end.orphans =~= ps);
    assert forall|i: int| 0 <= i < ps.len() implies reply_step_spec(
        after_reply_steps(end, i as nat),
    ).0 == Some((#[trigger] ps[i], false)) by {
        lemma_reply_steps_take_put_aside(end, i as nat);
        assert(ps.skip(i)[0] == ps[i]);
    }
}

/// While a resume is in flight, a payload read while blocking for the stop
/// whose first byte is `T`, `S`, `W` or `X` ends it, so commands may be sent
/// again; any other payload leaves it in flight.
pub proof fn law_stop_byte_ends_resume(m: RemoteModel, payload: Seq<u8>)
    ensures
        payload.len() > 0 && (payload[0] == 0x54 || payload[0] == 0x53 || payload[0] == 0x57
            || payload[0] == 0x58) ==> !after_payload(m, payload).resume_in_flight,
        m.resume_in_flight && !(payload.len() > 0 && (payload[0] == 0x54 || payload[0] == 0x53
            || payload[0] == 0x57 || payload[0] == 0x58)) ==> after_payload(
            m,
            payload,
        ).resume_in_flight,
{
}

/// A payload found while polling is taken as the stop exactly when its
/// text starts with `T`, `S`, `W` or `X`; anything else is put aside.
pub proof fn law_polled_stop_letters(text: Seq<char>)
    ensures
        stop_event_spec(text) is Some <==> (text.len() > 0 && (text[0] == 'T' || text[0] == 'S'
            || text[0] == 'W' || text[0] == 'X')),
{
}

} // verus!
