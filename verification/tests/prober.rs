use latency_probe::codec::{decode, encode};
use latency_probe::config::Config;
use latency_probe::prober::{Prober, ReplyOutcome, MAX_LATENCY_MICROS};
use latency_probe::report::{MinuteKey, MinuteStats};

const NOON: u128 = 1_705_320_000_000_000;

#[test]
fn ticks_number_the_probes_from_zero() {
    let mut prober = Prober::new(3, MAX_LATENCY_MICROS);
    assert_eq!(prober.next_sequence(), Some(0));
    for expected in 0..5u64 {
        let sent_at = NOON + 100_000 * expected as u128;
        let (sequence, payload) = prober.on_tick(sent_at, 64).unwrap();
        assert_eq!(sequence, expected);
        assert_eq!(payload, encode(expected, sent_at, 64));
        assert_eq!(decode(&payload), Ok((expected, sent_at)));
        assert_eq!(prober.next_sequence(), Some(expected + 1));
    }
    let tracker = prober.tracker();
    assert_eq!(tracker.len(), 3);
    assert_eq!(tracker.tail_sequence(), Some(4));
    assert_eq!(tracker.get(0).unwrap().sequence, 2);
    assert_eq!(
        tracker.snapshot(),
        vec![
            (NOON + 200_000, MAX_LATENCY_MICROS),
            (NOON + 300_000, MAX_LATENCY_MICROS),
            (NOON + 400_000, MAX_LATENCY_MICROS),
        ]
    );
}

#[test]
fn probe_is_recorded_before_its_payload_is_handed_out() {
    let mut prober = Prober::new(8, MAX_LATENCY_MICROS);
    let (sequence, payload) = prober.on_tick(NOON, 24).unwrap();
    assert_eq!(prober.tracker().position_of(sequence), Some(0));
    assert_eq!(
        prober.on_datagram(&payload, NOON),
        ReplyOutcome::Resolved { sequence: 0, sent_at: NOON, latency: 0 }
    );
}

#[test]
fn datagrams_are_matched_once() {
    let mut prober = Prober::new(3, MAX_LATENCY_MICROS);
    let mut payloads = Vec::new();
    for i in 0..5u128 {
        payloads.push(prober.on_tick(NOON + 100_000 * i, 32).unwrap().1);
    }
    assert_eq!(
        prober.on_datagram(&payloads[2], NOON + 200_000 + 1_234),
        ReplyOutcome::Resolved { sequence: 2, sent_at: NOON + 200_000, latency: 1_234 }
    );
    assert_eq!(
        prober.on_datagram(&payloads[2], NOON + 200_000 + 9_999),
        ReplyOutcome::Unmatched { sequence: 2, sent_at: NOON + 200_000 }
    );
    assert_eq!(
        prober.on_datagram(&payloads[1], NOON + 500_000),
        ReplyOutcome::Unmatched { sequence: 1, sent_at: NOON + 100_000 }
    );
    assert_eq!(
        prober.on_datagram(&encode(5, NOON, 32), NOON + 500_000),
        ReplyOutcome::Unmatched { sequence: 5, sent_at: NOON }
    );
    assert_eq!(prober.on_datagram(&payloads[4][..23], NOON + 500_000), ReplyOutcome::Malformed);
    assert_eq!(prober.on_datagram(&[], NOON + 500_000), ReplyOutcome::Malformed);
    assert_eq!(
        prober.tracker().snapshot(),
        vec![
            (NOON + 200_000, 1_234),
            (NOON + 300_000, MAX_LATENCY_MICROS),
            (NOON + 400_000, MAX_LATENCY_MICROS),
        ]
    );
}

#[test]
fn report_counts_probes_without_a_reply_with_the_pending_latency() {
    let mut prober = Prober::new(10, MAX_LATENCY_MICROS);
    let first = prober.on_tick(NOON, 24).unwrap().1;
    let _second = prober.on_tick(NOON + 1_000_000, 24).unwrap().1;
    let third = prober.on_tick(NOON + 2_000_000, 24).unwrap().1;
    prober.on_datagram(&third, NOON + 2_000_000 + 300);
    prober.on_datagram(&first, NOON + 2_000_000 + 400);
    let minute = MinuteKey { year: 2024, month0: 0, day: 15, hour: 12, minute: 0 };
    assert_eq!(
        prober.report(),
        Some(vec![MinuteStats { minute, min: 300, max: 2_000_400, median: MAX_LATENCY_MICROS }])
    );
}

#[test]
fn prober_takes_its_window_from_the_config() {
    let config = Config {
        alternative_interface: String::from("eth0"),
        interval_millis: 100,
        max_packet_size: 128,
        max_queue_size: 2,
        public_ip_address: String::from("192.0.2.1"),
        target_port: 9000,
        web_port: 8080,
    };
    let mut prober = Prober::from_config(&config);
    assert_eq!(prober.tracker().max_queue_size(), 2);
    assert_eq!(prober.tracker().pending_latency(), 1_000_000);
    for i in 0..4u128 {
        prober.next_probe(i);
    }
    assert_eq!(prober.tracker().len(), 2);
    assert_eq!(prober.next_sequence(), Some(4));
}
