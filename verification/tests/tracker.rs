use latency_probe::tracker::{Probe, Tracker};

const PENDING: u64 = 1_000_000;

fn filled(max_queue_size: usize, probes: u64) -> Tracker {
    let mut tracker = Tracker::new(max_queue_size, PENDING);
    for sequence in 0..probes {
        tracker.record_sent(sequence, 1_000 + 100_000 * sequence as u128);
    }
    tracker
}

fn sequences(tracker: &Tracker) -> Vec<u64> {
    (0..tracker.len()).map(|i| tracker.get(i).unwrap().sequence).collect()
}

#[test]
fn new_tracker_is_empty() {
    let tracker = Tracker::new(3, PENDING);
    assert_eq!(tracker.len(), 0);
    assert!(tracker.is_empty());
    assert_eq!(tracker.max_queue_size(), 3);
    assert_eq!(tracker.pending_latency(), PENDING);
    assert_eq!(tracker.tail_sequence(), None);
    assert_eq!(tracker.get(0), None);
    assert_eq!(tracker.snapshot(), Vec::<(u128, u64)>::new());
}

#[test]
fn length_never_exceeds_the_bound() {
    for max_queue_size in 0..5usize {
        let mut tracker = Tracker::new(max_queue_size, PENDING);
        for sequence in 0..20u64 {
            tracker.record_sent(sequence, sequence as u128);
            assert!(tracker.len() <= max_queue_size);
            assert_eq!(tracker.len(), max_queue_size.min(sequence as usize + 1));
            tracker.resolve(sequence / 2, 100 + sequence as u128);
            assert!(tracker.len() <= max_queue_size);
        }
    }
}

#[test]
fn five_ticks_into_a_window_of_three_keep_the_last_three() {
    let tracker = filled(3, 5);
    assert_eq!(tracker.len(), 3);
    assert_eq!(sequences(&tracker), vec![2, 3, 4]);
    assert_eq!(tracker.tail_sequence(), Some(4));
    assert_eq!(
        tracker.snapshot(),
        vec![(201_000, PENDING), (301_000, PENDING), (401_000, PENDING)]
    );
    for i in 0..3 {
        assert_eq!(tracker.get(i).unwrap().latency, None);
    }
}

#[test]
fn reply_to_the_oldest_kept_probe_resolves_the_head() {
    let mut tracker = filled(3, 5);
    assert_eq!(tracker.position_of(2), Some(0));
    assert_eq!(tracker.position_of(3), Some(1));
    assert_eq!(tracker.position_of(4), Some(2));
    assert!(tracker.resolve(2, 201_000 + 750));
    assert_eq!(
        tracker.get(0),
        Some(Probe { sequence: 2, sent_at: 201_000, latency: Some(750) })
    );
    assert_eq!(
        tracker.snapshot(),
        vec![(201_000, 750), (301_000, PENDING), (401_000, PENDING)]
    );
}

#[test]
fn second_reply_changes_nothing() {
    let mut tracker = filled(4, 4);
    assert!(tracker.resolve(1, 101_000 + 40));
    let before = tracker.snapshot();
    assert!(!tracker.resolve(1, 101_000 + 9_000));
    assert!(!tracker.resolve(1, 101_000 + 40));
    assert_eq!(tracker.snapshot(), before);
    assert_eq!(tracker.get(1).unwrap().latency, Some(40));
}

#[test]
fn observed_latency_equal_to_the_pending_one_is_still_final() {
    let mut tracker = filled(2, 2);
    assert!(tracker.resolve(0, 1_000 + PENDING as u128));
    assert_eq!(tracker.get(0).unwrap().latency, Some(PENDING));
    assert!(!tracker.resolve(0, 1_000 + 5));
    assert_eq!(tracker.get(0).unwrap().latency, Some(PENDING));
}

#[test]
fn reply_to_an_evicted_probe_changes_nothing() {
    let mut tracker = filled(3, 5);
    let before = tracker.snapshot();
    assert_eq!(tracker.position_of(1), None);
    assert_eq!(tracker.position_of(0), None);
    assert!(!tracker.resolve(1, 9_000_000));
    assert!(!tracker.resolve(0, 9_000_000));
    assert_eq!(tracker.snapshot(), before);
    assert_eq!(sequences(&tracker), vec![2, 3, 4]);
}

#[test]
fn reply_to_a_probe_not_yet_sent_changes_nothing() {
    let mut tracker = filled(3, 5);
    let before = tracker.snapshot();
    assert_eq!(tracker.position_of(5), None);
    assert!(!tracker.resolve(5, 9_000_000));
    assert!(!tracker.resolve(u64::MAX, 9_000_000));
    assert_eq!(tracker.snapshot(), before);
}

#[test]
fn reply_on_an_empty_tracker_changes_nothing() {
    let mut tracker = Tracker::new(3, PENDING);
    assert!(!tracker.resolve(0, 5));
    assert!(tracker.is_empty());
}

#[test]
fn reply_seen_before_the_probe_was_sent_is_refused() {
    let mut tracker = filled(3, 3);
    let before = tracker.snapshot();
    assert!(!tracker.resolve(2, 200_999));
    assert_eq!(tracker.snapshot(), before);
    assert!(tracker.resolve(2, 201_000));
    assert_eq!(tracker.get(2).unwrap().latency, Some(0));
}

#[test]
fn latency_that_does_not_fit_is_refused() {
    let mut tracker = Tracker::new(2, PENDING);
    tracker.record_sent(0, 10);
    assert!(!tracker.resolve(0, 10 + u64::MAX as u128 + 1));
    assert_eq!(tracker.get(0).unwrap().latency, None);
    assert!(tracker.resolve(0, 10 + u64::MAX as u128));
    assert_eq!(tracker.get(0).unwrap().latency, Some(u64::MAX));
}

#[test]
fn tracker_of_size_zero_keeps_nothing() {
    let mut tracker = Tracker::new(0, PENDING);
    tracker.record_sent(0, 1);
    tracker.record_sent(1, 2);
    assert_eq!(tracker.len(), 0);
    assert!(!tracker.resolve(1, 3));
    assert_eq!(tracker.tail_sequence(), None);
}

#[test]
fn continues_tells_the_successor_of_the_tail() {
    let mut tracker = Tracker::new(2, PENDING);
    assert!(tracker.continues(17));
    tracker.record_sent(17, 1);
    assert!(tracker.continues(18));
    assert!(!tracker.continues(17));
    assert!(!tracker.continues(19));
    tracker.record_sent(u64::MAX, 2);
    assert!(!tracker.continues(0));
    assert!(!tracker.continues(u64::MAX));
}

#[test]
fn eviction_drops_a_resolved_head_too() {
    let mut tracker = filled(2, 2);
    assert!(tracker.resolve(0, 1_500));
    tracker.record_sent(2, 201_000);
    assert_eq!(sequences(&tracker), vec![1, 2]);
    assert_eq!(tracker.snapshot(), vec![(101_000, PENDING), (201_000, PENDING)]);
}
