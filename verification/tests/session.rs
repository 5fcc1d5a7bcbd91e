use lib::gdb_remote::{GdbError, StopKind};
use lib::gdbproto::{encode_packet, Decoded};
use lib::session::{RemoteState, ReplyStep, StopEvent, DEFAULT_PACKET_SIZE};

fn ready(step: ReplyStep) -> (Vec<u8>, bool) {
    match step {
        ReplyStep::Ready(p, ack) => (p, ack),
        ReplyStep::NeedInput => panic!("expected a reply"),
    }
}

#[test]
fn fresh_state() {
    let s = RemoteState::new();
    assert!(!s.resume_in_flight());
    assert_eq!(s.packet_size(), DEFAULT_PACKET_SIZE);
    assert_eq!(s.qsupported(), "");
    assert!(s.needs_ack());
    assert!(s.check_can_send().is_ok());
}

#[test]
fn resume_in_flight_blocks_commands_until_stop() {
    let mut s = RemoteState::new();
    s.mark_resume_in_flight();
    assert!(s.resume_in_flight());
    match s.check_can_send().unwrap_err() {
        GdbError::Protocol(m) => assert!(m.contains("resume in flight")),
        other => panic!("{:?}", other),
    }
    s.clear_resume_if_stop(b"OK");
    assert!(s.resume_in_flight());
    s.clear_resume_if_stop(b"T05thread:1;");
    assert!(!s.resume_in_flight());
    assert!(s.check_can_send().is_ok());
}

#[test]
fn replies_skip_acks_and_come_in_order() {
    let mut s = RemoteState::new();
    let mut bytes = b"+".to_vec();
    bytes.extend(encode_packet(b"OK"));
    bytes.extend(encode_packet(b"S05"));
    assert!(s.ingest(&bytes[..5]).is_ok());
    assert!(s.ingest(&bytes[5..]).is_ok());
    assert_eq!(ready(s.wait_reply_step()), (b"OK".to_vec(), true));
    assert_eq!(ready(s.wait_reply_step()), (b"S05".to_vec(), true));
    assert!(matches!(s.wait_reply_step(), ReplyStep::NeedInput));
    assert!(s.ingest(b"").is_err());
}

#[test]
fn pending_items_can_be_taken_one_by_one() {
    let mut s = RemoteState::new();
    s.ingest(b"+-").unwrap();
    assert_eq!(s.pop_pending(), Some(Decoded::Ack));
    assert_eq!(s.pop_pending(), Some(Decoded::Nack));
    assert_eq!(s.pop_pending(), None);
    s.ingest(b"+").unwrap();
    assert_eq!(s.next_pending_packet(), None);
    assert_eq!(s.pop_pending(), None);
}

#[test]
fn handshake_state() {
    let mut s = RemoteState::new();
    s.record_qsupported(b"PacketSize=1000;qXfer:features:read+;QStartNoAckMode+");
    assert_eq!(s.packet_size(), 0x1000);
    assert!(s.offers_no_ack());
    s.accept_no_ack_reply(b"E01");
    assert!(s.needs_ack());
    s.accept_no_ack_reply(b"OK");
    assert!(!s.needs_ack());
    s.ingest(&encode_packet(b"OK")).unwrap();
    assert_eq!(ready(s.wait_reply_step()), (b"OK".to_vec(), false));

    let mut t = RemoteState::new();
    t.record_qsupported(b"swbreak+");
    assert_eq!(t.packet_size(), DEFAULT_PACKET_SIZE);
    assert!(!t.offers_no_ack());
}

#[test]
fn stop_packets_while_blocking() {
    let mut s = RemoteState::new();
    s.mark_resume_in_flight();
    match s.stop_from_packet(b"O48656c6c6f") {
        StopEvent::Ignored => {}
        _ => panic!("console output is not a stop"),
    }
    assert!(s.resume_in_flight());
    match s.stop_from_packet(b"T05thread:1;swbreak:;") {
        StopEvent::Stop(Ok(info)) => {
            assert_eq!(info.stop_kind, StopKind::SwBreak);
            assert_eq!(info.thread, Some(1));
        }
        _ => panic!("expected a stop"),
    }
    assert!(!s.resume_in_flight());
    match s.stop_from_packet(b"W00") {
        StopEvent::Stop(Ok(info)) => {
            assert_eq!(info.stop_kind, StopKind::Other("W00".to_string()));
            assert_eq!(info.thread, None);
        }
        _ => panic!("expected an exit"),
    }
    assert!(matches!(s.stop_from_packet("T0é".as_bytes()), StopEvent::Unparsable));
}

#[test]
fn polled_non_stop_packets_are_kept_for_later_replies() {
    let mut s = RemoteState::new();
    s.mark_resume_in_flight();
    assert!(matches!(s.stop_from_polled(b"OK".to_vec()), StopEvent::Ignored));
    assert!(s.resume_in_flight());
    assert!(matches!(s.stop_from_polled(b"S02".to_vec()), StopEvent::Stop(Ok(_))));
    assert!(!s.resume_in_flight());
    assert_eq!(ready(s.wait_reply_step()), (b"OK".to_vec(), false));
}

#[test]
fn several_polled_packets_come_back_in_order() {
    let mut s = RemoteState::new();
    s.mark_resume_in_flight();
    assert!(matches!(s.stop_from_polled(b"OK".to_vec()), StopEvent::Ignored));
    assert!(matches!(s.stop_from_polled(b"1234".to_vec()), StopEvent::Ignored));
    assert!(matches!(s.stop_from_polled(b"E01".to_vec()), StopEvent::Ignored));
    assert!(matches!(s.stop_from_polled(b"T05".to_vec()), StopEvent::Stop(Ok(_))));
    assert!(!s.resume_in_flight());
    s.ingest(b"$ab#c3").unwrap();
    assert_eq!(ready(s.wait_reply_step()), (b"OK".to_vec(), false));
    assert_eq!(ready(s.wait_reply_step()), (b"1234".to_vec(), false));
    assert_eq!(ready(s.wait_reply_step()), (b"E01".to_vec(), false));
    assert_eq!(ready(s.wait_reply_step()), (b"ab".to_vec(), true));
}

#[test]
fn resume_in_flight_follows_the_last_resume_and_stop() {
    let mut s = RemoteState::new();
    assert!(!s.resume_in_flight());
    s.clear_resume_if_stop(b"OK");
    assert!(!s.resume_in_flight());
    s.mark_resume_in_flight();
    s.clear_resume_if_stop(b"OK");
    assert!(s.resume_in_flight());
    s.clear_resume_if_stop(b"W00");
    assert!(!s.resume_in_flight());
    s.mark_resume_in_flight();
    s.mark_resume_in_flight();
    assert!(matches!(s.stop_from_packet(b"X09"), StopEvent::Stop(Ok(_))));
    assert!(!s.resume_in_flight());
}
