use udp_loss::codec::encode;
use udp_loss::endpoint::Endpoint;
use udp_loss::tracker::{Arrival, Message, Packet, TrackError, Tracker, LOSS_TIMEOUT_NS};

const T0: u64 = 1_700_000_000_000_000_000;
const MS: u64 = 1_000_000;

fn sender(port: u16) -> Endpoint {
    Endpoint::new(0x7f00_0001, false, port)
}

fn arrival(sequence: u64, received_at: u64, port: u16) -> Arrival {
    Arrival { sequence, sent_at: received_at - 3 * MS, received_at, remote: sender(port), recv_size: 16 }
}

fn packets(events: &[Message]) -> Vec<Packet> {
    events
        .iter()
        .filter_map(|m| match m {
            Message::Packet(p) => Some(*p),
            _ => None,
        })
        .collect()
}

fn losses(events: &[Message]) -> Vec<u64> {
    events
        .iter()
        .filter_map(|m| match m {
            Message::Lost(s) => Some(*s),
            _ => None,
        })
        .collect()
}

fn resets(events: &[Message]) -> usize {
    events.iter().filter(|m| matches!(m, Message::Reset)).count()
}

fn feed(t: &mut Tracker, seqs: &[u64], start: u64, port: u16) -> Vec<Message> {
    let mut all = Vec::new();
    for (i, s) in seqs.iter().enumerate() {
        all.extend(t.track(arrival(*s, start + i as u64 * MS, port)).unwrap());
    }
    all
}

#[test]
fn no_loss_baseline() {
    let mut t = Tracker::new();
    let seqs: Vec<u64> = (0..50).collect();
    let ev = feed(&mut t, &seqs, T0, 40000);
    let obs = packets(&ev);
    assert_eq!(ev.len(), 50);
    assert_eq!(obs.len(), 50);
    for (i, p) in obs.iter().enumerate() {
        assert_eq!(p.sequence_sender, i as u64);
        assert_eq!(p.sequence_receiver, p.sequence_sender);
        assert!(!p.out_of_order());
    }
    assert!(losses(&ev).is_empty());
    assert_eq!(resets(&ev), 0);
    assert_eq!(t.expected_sequence(), 50);
    assert_eq!(t.pending_len(), 0);
}

#[test]
fn gap_detection() {
    let mut t = Tracker::new();
    let mut ev = feed(&mut t, &[0, 1, 3, 4], T0, 40000);
    assert!(t.is_pending(2));
    let obs3 = packets(&ev).into_iter().find(|p| p.sequence_sender == 3).unwrap();
    assert_eq!(obs3.sequence_receiver, 2);
    assert!(obs3.out_of_order());
    ev.extend(t.track(arrival(5, T0 + 3 * MS + LOSS_TIMEOUT_NS + 1, 40000)).unwrap());
    assert_eq!(losses(&ev), vec![2]);
    assert!(!t.is_pending(2));
    ev.extend(feed(&mut t, &[6, 7], T0 + 2 * LOSS_TIMEOUT_NS, 40000));
    assert_eq!(losses(&ev), vec![2]);
}

#[test]
fn losses_come_before_the_observation_that_swept_them() {
    let mut t = Tracker::new();
    feed(&mut t, &[0, 2], T0, 40000);
    let ev = t.track(arrival(3, T0 + MS + LOSS_TIMEOUT_NS + 1, 40000)).unwrap();
    assert_eq!(ev.len(), 2);
    assert_eq!(ev[0], Message::Lost(1));
    assert!(matches!(ev[1], Message::Packet(p) if p.sequence_sender == 3 && p.sequence_receiver == 3));
}

#[test]
fn late_arrival_reconciliation() {
    let mut t = Tracker::new();
    let mut ev = feed(&mut t, &[0, 1, 3, 2, 4], T0, 40000);
    let late = packets(&ev)[3];
    assert_eq!(late.sequence_sender, 2);
    assert_eq!(late.sequence_receiver, 4);
    assert!(!t.is_pending(2));
    assert_eq!(t.expected_sequence(), 5);
    ev.extend(t.track(arrival(5, T0 + 10 * LOSS_TIMEOUT_NS, 40000)).unwrap());
    assert!(losses(&ev).is_empty());
}

#[test]
fn session_reset_on_new_port() {
    let mut t = Tracker::new();
    let before = feed(&mut t, &[0, 1, 2, 3], T0, 40000);
    assert_eq!(resets(&before), 0);
    let ev = t.track(arrival(0, T0 + 10 * MS, 40001)).unwrap();
    assert_eq!(resets(&ev), 1);
    assert_eq!(ev[0], Message::Reset);
    let obs = packets(&ev);
    assert_eq!(obs.len(), 1);
    assert_eq!(obs[0].sequence_receiver, 0);
    assert_eq!(t.last_remote(), Some(sender(40001)));
    assert_eq!(t.expected_sequence(), 1);
}

#[test]
fn first_packet_ever_is_no_reset() {
    let mut t = Tracker::new();
    assert_eq!(t.last_remote(), None);
    let ev = t.track(arrival(0, T0, 40000)).unwrap();
    assert_eq!(resets(&ev), 0);
    assert_eq!(ev.len(), 1);
    assert_eq!(t.last_remote(), Some(sender(40000)));
}

#[test]
fn new_batch_from_same_port_is_no_reset() {
    let mut t = Tracker::new();
    let seqs: Vec<u64> = (0..10).collect();
    feed(&mut t, &seqs, T0, 40000);
    let ev = t.track(arrival(0, T0 + 1_000 * MS, 40000)).unwrap();
    assert_eq!(resets(&ev), 0);
    assert_eq!(packets(&ev)[0].sequence_receiver, 0);
    assert_eq!(t.expected_sequence(), 1);
}

#[test]
fn ceiling_guard() {
    let mut t = Tracker::new();
    feed(&mut t, &[0], T0, 40000);
    assert_eq!(t.track(arrival(1_000_002, T0 + MS, 40000)), Err(TrackError::LossSpanTooLarge));
    assert_eq!(t.expected_sequence(), 1);
    assert_eq!(t.pending_len(), 0);
    let ev = t.track(arrival(1_000_001, T0 + 2 * MS, 40000)).unwrap();
    assert_eq!(packets(&ev)[0].sequence_receiver, 1);
    assert_eq!(t.pending_len(), 1_000_000);
}

#[test]
fn custom_ceiling() {
    let mut t = Tracker::with_limits(LOSS_TIMEOUT_NS, 3);
    feed(&mut t, &[0], T0, 40000);
    assert_eq!(t.track(arrival(5, T0 + MS, 40000)), Err(TrackError::LossSpanTooLarge));
    assert!(t.track(arrival(4, T0 + MS, 40000)).is_ok());
    assert_eq!(t.pending_len(), 3);
}

#[test]
fn sequence_going_back_is_observed_and_ignored() {
    let mut t = Tracker::new();
    feed(&mut t, &[0, 1, 2, 3, 4, 5], T0, 40000);
    let ev = t.track(arrival(2, T0 + 10 * MS, 40000)).unwrap();
    assert_eq!(ev.len(), 1);
    let obs = packets(&ev)[0];
    assert_eq!(obs.sequence_sender, 2);
    assert_eq!(obs.sequence_receiver, 6);
    assert_eq!(t.expected_sequence(), 6);
    assert_eq!(t.pending_len(), 0);
}

#[test]
fn duplicate_datagram_is_observed_and_ignored() {
    let mut t = Tracker::new();
    feed(&mut t, &[0, 1, 2], T0, 40000);
    let ev = t.track(arrival(2, T0 + 3 * MS, 40000)).unwrap();
    assert_eq!(packets(&ev).len(), 1);
    assert!(losses(&ev).is_empty());
    assert_eq!(t.expected_sequence(), 3);
}

#[test]
fn late_datagram_after_its_timeout_is_lost_once_and_observed() {
    let mut t = Tracker::new();
    let mut ev = feed(&mut t, &[0, 1, 3], T0, 40000);
    assert!(t.is_pending(2));
    let late = t.track(arrival(2, T0 + 2 * MS + LOSS_TIMEOUT_NS + 1, 40000)).unwrap();
    assert_eq!(late.len(), 2);
    assert_eq!(late[0], Message::Lost(2));
    assert!(matches!(late[1], Message::Packet(p) if p.sequence_sender == 2 && p.sequence_receiver == 4));
    assert!(!t.is_pending(2));
    assert_eq!(t.expected_sequence(), 4);
    ev.extend(late);
    ev.extend(feed(&mut t, &[4, 5], T0 + 3 * LOSS_TIMEOUT_NS, 40000));
    assert_eq!(losses(&ev), vec![2]);
}

#[test]
fn reordered_zero_is_a_late_arrival() {
    let mut t = Tracker::new();
    let mut ev = feed(&mut t, &[1], T0, 40000);
    assert!(t.is_pending(0));
    assert_eq!(t.expected_sequence(), 2);
    ev.extend(t.track(arrival(0, T0 + MS, 40000)).unwrap());
    assert!(!t.is_pending(0));
    assert_eq!(t.expected_sequence(), 2);
    assert_eq!(t.last_remote(), Some(sender(40000)));
    ev.extend(feed(&mut t, &[2, 3], T0 + 2 * MS, 40000));
    ev.extend(feed(&mut t, &[4], T0 + 3 * LOSS_TIMEOUT_NS, 40000));
    assert!(losses(&ev).is_empty());
    assert_eq!(resets(&ev), 0);
    let zero = packets(&ev)[1];
    assert_eq!(zero.sequence_sender, 0);
    assert_eq!(zero.sequence_receiver, 2);
}

#[test]
fn timeout_is_strict() {
    let mut t = Tracker::with_limits(100, 1_000);
    t.track(arrival(0, T0, 40000)).unwrap();
    t.track(arrival(2, T0, 40000)).unwrap();
    let ev = t.track(arrival(3, T0 + 100, 40000)).unwrap();
    assert!(losses(&ev).is_empty());
    let ev = t.track(arrival(4, T0 + 101, 40000)).unwrap();
    assert_eq!(losses(&ev), vec![1]);
}

#[test]
fn receive_decodes_the_datagram() {
    let mut t = Tracker::new();
    let buf = encode(0, T0, 64).unwrap();
    let ev = t.receive(&buf, sender(40000), T0 + 2_500).unwrap();
    assert_eq!(
        ev,
        vec![Message::Packet(Packet {
            sequence_sender: 0,
            sequence_receiver: 0,
            sent_at: T0,
            received_at: T0 + 2_500,
            remote: sender(40000),
            recv_size: 64,
        })]
    );
    if let Message::Packet(p) = ev[0] {
        assert_eq!(p.latency_ns(), 2_500);
    }
}

#[test]
fn receive_refuses_short_datagram() {
    let mut t = Tracker::new();
    assert_eq!(t.receive(&[0u8; 10], sender(40000), T0), Err(TrackError::MalformedPacket));
    assert_eq!(t.expected_sequence(), 0);
}

#[test]
fn latency_can_be_negative() {
    let p = Packet {
        sequence_sender: 1,
        sequence_receiver: 1,
        sent_at: 5_000,
        received_at: 2_000,
        remote: sender(1),
        recv_size: 16,
    };
    assert_eq!(p.latency_ns(), -3_000);
}
