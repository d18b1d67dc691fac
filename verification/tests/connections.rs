use ball::networking::connection::{contents, Acks, Connection, HEADER_BYTES};
use ball::networking::tick::Interval;
use ball::networking::{RecvError, RttEstimator};
use ball::number::Real;
use ball::time::{Duration, Instant};

fn at(nanos: u128) -> Instant {
    Instant { nanos }
}

fn packet(sequence: u32, ack: u32, ack_bits: u32, rest: &[u8]) -> Vec<u8> {
    let mut bytes = Vec::new();
    bytes.extend_from_slice(&sequence.to_be_bytes());
    bytes.extend_from_slice(&ack.to_be_bytes());
    bytes.extend_from_slice(&ack_bits.to_be_bytes());
    bytes.extend_from_slice(rest);
    bytes
}

#[test]
fn headers_are_big_endian() {
    let mut connection = Connection::default();
    connection.local_sequence = 0x0102_0304;
    let mut bytes = vec![0xff];
    assert_eq!(connection.send_header(&mut bytes), 0x0102_0304);
    assert_eq!(bytes, vec![0xff, 1, 2, 3, 4, 0, 0, 0, 0, 0, 0, 0, 0]);
    assert_eq!(connection.local_sequence, 0x0102_0305);
}

#[test]
fn header_is_read_back() {
    let mut sender = Connection::default();
    sender.acks.ack(70);
    sender.acks.ack(69);
    sender.local_sequence = 9;
    let mut bytes = Vec::new();
    sender.send_header(&mut bytes);
    bytes.push(42);
    let mut receiver = Connection::default();
    let (sequence, acks, lost) = receiver.recv_header(&bytes).unwrap();
    assert_eq!(sequence, 9);
    assert!(acks == sender.acks);
    assert_eq!(acks.iter(), vec![70, 69]);
    // Nothing that is behind the window has been sent, so nothing after the first packet is lost.
    assert_eq!(lost.into_vec(), vec![0]);
    assert_eq!(contents(&bytes), &[42][..]);
    assert_eq!(contents(&bytes[..HEADER_BYTES - 1]).len(), 0);
}

#[test]
fn acks_form_a_window() {
    let mut acks = Acks::default();
    assert!(!acks.contains(0));
    acks.ack(0);
    assert!(acks.contains(0));
    acks.ack(5);
    acks.ack(3);
    assert!(acks.contains(5) && acks.contains(3) && acks.contains(0));
    assert!(!acks.contains(4) && !acks.contains(6));
    acks.ack(31);
    assert!(acks.contains(0));
    acks.ack(32);
    assert!(!acks.contains(0) && acks.contains(3));
    // Too old to matter.
    acks.ack(0);
    assert!(!acks.contains(0));
    acks.ack(1000);
    assert_eq!(acks.iter(), vec![1000]);
}

#[test]
fn first_packet_is_listed() {
    let mut acks = Acks::default();
    assert_eq!(acks.iter().len(), 0);
    acks.ack(0);
    assert_eq!(acks.iter(), vec![0]);
    acks.ack(1);
    acks.ack(2);
    assert_eq!(acks.iter(), vec![2, 1, 0]);
    acks.ack(31);
    assert_eq!(acks.iter(), vec![31, 2, 1, 0]);
    acks.ack(32);
    assert_eq!(acks.iter(), vec![32, 31, 2, 1]);
    acks.ack(u32::MAX);
    assert_eq!(acks.iter(), vec![u32::MAX]);
}

#[test]
fn packets_that_are_jumped_over_are_lost() {
    let mut known = Acks::default();
    for sequence in 0..=10 {
        if sequence != 9 {
            known.ack(sequence);
        }
    }
    let mut newer = Acks::default();
    newer.ack(60);
    let mut expected: Vec<u32> = (11..=28).rev().collect();
    expected.push(9);
    assert_eq!(known.combine(newer).into_vec(), expected);
    // The others are still in the window.
    let mut newest = Acks::default();
    newest.ack(61);
    assert_eq!(known.combine(newest).into_vec(), vec![29]);
}

#[test]
fn combining_acks_reports_lost_packets() {
    let mut known = Acks::default();
    for sequence in 1..=10 {
        if sequence != 4 && sequence != 7 {
            known.ack(sequence);
        }
    }
    let mut newer = Acks::default();
    newer.ack(36);
    let lost = known.combine(newer).into_vec();
    // Only what has left the window is lost.
    assert_eq!(lost, vec![4, 0]);
    assert!(known.contains(36) && known.contains(5) && !known.contains(7));
    let mut newest = Acks::default();
    newest.ack(41);
    newest.ack(35);
    assert_eq!(known.combine(newest).into_vec(), vec![9 - 2]);
    assert!(known.contains(35) && known.contains(36) && known.contains(41));
    // An older set only adds to what is known.
    let mut older = Acks::default();
    older.ack(40);
    assert_eq!(known.combine(older).len(), 0);
    assert!(known.contains(40) && known.contains(41));
}

#[test]
fn short_packets_change_nothing() {
    let mut connection = Connection::default();
    for length in 0..HEADER_BYTES {
        let bytes = vec![1; length];
        assert!(matches!(
            connection.decode::<u8>(&bytes, Some(1)),
            Err(RecvError::HeaderRead)
        ));
    }
    assert_eq!(connection.acks.iter().len(), 0);
    assert_eq!(connection.local_sequence, 0);
}

#[test]
fn headers_count_without_contents() {
    let mut connection = Connection::default();
    let result = connection.decode::<u8>(&packet(6, 0, 0, &[]), None);
    assert!(matches!(result, Err(RecvError::Deserialize)));
    assert!(connection.acks.contains(6));
    let (value, sequence, _, _) = connection.decode(&packet(7, 0, 0, &[9]), Some(9)).unwrap();
    assert_eq!((value, sequence), (9, 7));
}

#[test]
fn lost_packets_are_reported_once() {
    let mut connection = Connection::default();
    connection.decode(&packet(1, 3, 0b101, &[]), Some(())).unwrap();
    let (_, _, _, lost) = connection.decode(&packet(2, 34, 1, &[]), Some(())).unwrap();
    assert_eq!(lost.into_vec(), vec![2, 0]);
    let (_, _, _, lost) = connection.decode(&packet(3, 34, 1, &[]), Some(())).unwrap();
    assert_eq!(lost.len(), 0);
    assert!(connection.remote_acks.contains(34));
}

#[test]
fn only_what_has_been_sent_is_lost() {
    let mut connection = Connection::default();
    connection.local_sequence = 20;
    connection.decode(&packet(1, 10, 0b111_1111_1101, &[]), Some(())).unwrap();
    assert_eq!(connection.loss_limit(&packet(2, 12, 1, &[])), 2);
    assert_eq!(connection.loss_limit(&packet(2, u32::MAX, 1, &[])), 41);
    assert_eq!(connection.loss_limit(&[]), 0);
    let (_, _, _, lost) =
        connection.decode(&packet(2, u32::MAX, 1, &[]), Some(())).unwrap();
    let mut expected: Vec<u32> = (11..20).rev().collect();
    expected.push(9);
    assert_eq!(lost.into_vec(), expected);
    assert_eq!(connection.loss_limit(&packet(3, u32::MAX, 1, &[])), 0);
}

#[test]
fn ticks_do_not_drift() {
    let mut ticks = Interval::new(Duration { nanos: 10 }, at(100));
    assert_eq!(ticks.interval(), Duration { nanos: 10 });
    // On time.
    assert_eq!(ticks.next(at(110)), (Duration { nanos: 10 }, Duration { nanos: 10 }));
    // Late.
    assert_eq!(ticks.next(at(123)), (Duration { nanos: 13 }, Duration { nanos: 7 }));
    // Early.
    assert_eq!(ticks.next(at(128)), (Duration { nanos: 5 }, Duration { nanos: 12 }));
    // More than a full interval late.
    assert_eq!(ticks.next(at(151)), (Duration { nanos: 23 }, Duration { nanos: 10 }));
    assert_eq!(ticks.next(at(161)), (Duration { nanos: 10 }, Duration { nanos: 10 }));
    // More than a full interval early.
    assert_eq!(ticks.next(at(155)), (Duration { nanos: 0 }, Duration { nanos: 10 }));
}

#[test]
fn intervals_are_those_between_ticks() {
    let mut ticks = Interval::new(Duration { nanos: 10 }, at(0));
    // The first interval is the one since the start.
    assert_eq!(ticks.next(at(3600)), (Duration { nanos: 3600 }, Duration { nanos: 10 }));
    assert_eq!(ticks.next(at(3614)), (Duration { nanos: 14 }, Duration { nanos: 6 }));
    assert_eq!(ticks.next(at(3620)), (Duration { nanos: 6 }, Duration { nanos: 10 }));
}

#[test]
fn round_trip_times_are_estimated() {
    let seconds = |span: Duration| Real { bits: (span.nanos as f32 / 1e9).to_bits() };
    let blend = |rtt: Real, sample: Real| Real {
        bits: (0.875 * f32::from_bits(rtt.bits) + 0.125 * f32::from_bits(sample.bits)).to_bits(),
    };
    let mut rtt = RttEstimator::default();
    assert!(rtt.rtt().is_none());
    rtt.pong(0, at(0), &seconds, &blend);
    assert!(rtt.rtt().is_none());
    rtt.ping(4, at(1_000_000_000));
    rtt.pong(3, at(1_100_000_000), &seconds, &blend);
    assert!(rtt.rtt().is_none());
    rtt.pong(4, at(1_500_000_000), &seconds, &blend);
    assert_eq!(f32::from_bits(rtt.rtt().unwrap().bits), 0.5);
    // The same answer does not count again.
    rtt.pong(4, at(9_500_000_000), &seconds, &blend);
    assert_eq!(f32::from_bits(rtt.rtt().unwrap().bits), 0.5);
    rtt.ping(5, at(2_000_000_000));
    rtt.pong(5, at(3_500_000_000), &seconds, &blend);
    assert_eq!(f32::from_bits(rtt.rtt().unwrap().bits), 0.625);
}
