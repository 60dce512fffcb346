use latency_probe::render::{group_by, push_decimal, push_signed_decimal, render_rows};
use latency_probe::report::{
    group_by_key, group_by_minute, key_history, minute_key, process_group, MinuteKey, MinuteStats,
};

const NOON: u128 = 1_705_320_000_000_000;

fn minute(hour: u32, minute: u32) -> MinuteKey {
    MinuteKey { year: 2024, month0: 0, day: 15, hour, minute }
}

#[test]
fn median_of_an_even_count_is_the_mean_of_the_middle_two() {
    let mut latencies: Vec<u64> = vec![10, 20, 30, 40];
    let stats = process_group(minute(12, 0), &mut latencies);
    assert_eq!(stats, MinuteStats { minute: minute(12, 0), min: 10, max: 40, median: 25 });
    assert!(latencies.is_empty());
}

#[test]
fn median_of_an_odd_count_is_the_middle_one() {
    let mut latencies: Vec<u64> = vec![10, 20, 30];
    let stats = process_group(minute(12, 0), &mut latencies);
    assert_eq!(stats, MinuteStats { minute: minute(12, 0), min: 10, max: 30, median: 20 });
    assert!(latencies.is_empty());
}

#[test]
fn process_group_sorts_first() {
    let mut latencies: Vec<u64> = vec![40, 10, 30, 20];
    let stats = process_group(minute(1, 2), &mut latencies);
    assert_eq!(stats, MinuteStats { minute: minute(1, 2), min: 10, max: 40, median: 25 });
    let mut latencies: Vec<u64> = vec![7, 3, 9, 1, 5];
    let stats = process_group(minute(1, 2), &mut latencies);
    assert_eq!(stats, MinuteStats { minute: minute(1, 2), min: 1, max: 9, median: 5 });
}

#[test]
fn process_group_of_one_latency() {
    let mut latencies: Vec<u64> = vec![1_000_000];
    let stats = process_group(minute(0, 0), &mut latencies);
    assert_eq!(
        stats,
        MinuteStats { minute: minute(0, 0), min: 1_000_000, max: 1_000_000, median: 1_000_000 }
    );
}

#[test]
fn median_rounds_down_and_does_not_overflow() {
    let mut latencies: Vec<u64> = vec![2, 1];
    assert_eq!(process_group(minute(0, 0), &mut latencies).median, 1);
    let mut latencies: Vec<u64> = vec![u64::MAX, u64::MAX - 1];
    let stats = process_group(minute(0, 0), &mut latencies);
    assert_eq!(stats.median, u64::MAX - 1);
    assert_eq!(stats.min, u64::MAX - 1);
    assert_eq!(stats.max, u64::MAX);
    let mut latencies: Vec<u64> = vec![u64::MAX, u64::MAX];
    assert_eq!(process_group(minute(0, 0), &mut latencies).median, u64::MAX);
}

#[test]
fn minute_key_places_a_time_in_the_calendar() {
    assert_eq!(
        minute_key(0),
        Some(MinuteKey { year: 1970, month0: 0, day: 1, hour: 0, minute: 0 })
    );
    assert_eq!(minute_key(NOON), Some(minute(12, 0)));
    assert_eq!(minute_key(NOON + 59_999_999), Some(minute(12, 0)));
    assert_eq!(minute_key(NOON + 60_000_000), Some(minute(12, 1)));
    assert_eq!(
        minute_key(1_709_251_199_000_000),
        Some(MinuteKey { year: 2024, month0: 1, day: 29, hour: 23, minute: 59 })
    );
    assert_eq!(
        minute_key(253_402_300_799_999_999),
        Some(MinuteKey { year: 9999, month0: 11, day: 31, hour: 23, minute: 59 })
    );
}

#[test]
fn minute_key_has_no_minute_beyond_the_calendar() {
    assert_eq!(minute_key(u128::MAX), None);
    assert_eq!(minute_key((i64::MAX as u128 + 1) * 1_000_000), None);
    assert_eq!(minute_key(i64::MAX as u128 * 1_000_000), None);
    assert_eq!(minute_key(u64::MAX as u128), None);
}

#[test]
fn probes_on_both_sides_of_a_minute_boundary_fall_into_two_buckets() {
    let history: Vec<(u128, u64)> =
        vec![(NOON + 59_900_000, 700), (NOON + 60_100_000, 900)];
    assert_eq!(
        group_by_minute(&history),
        Some(vec![
            MinuteStats { minute: minute(12, 0), min: 700, max: 700, median: 700 },
            MinuteStats { minute: minute(12, 1), min: 900, max: 900, median: 900 },
        ])
    );
}

#[test]
fn aggregation_gives_the_same_report_twice() {
    let history: Vec<(u128, u64)> = vec![
        (NOON, 30),
        (NOON + 1_000_000, 10),
        (NOON + 2_000_000, 1_000_000),
        (NOON + 61_000_000, 5),
        (NOON + 62_000_000, 15),
        (NOON + 3_600_000_000, 8),
    ];
    let first = group_by_minute(&history);
    let second = group_by_minute(&history);
    assert_eq!(first, second);
    assert_eq!(
        first,
        Some(vec![
            MinuteStats { minute: minute(12, 0), min: 10, max: 1_000_000, median: 30 },
            MinuteStats { minute: minute(12, 1), min: 5, max: 15, median: 10 },
            MinuteStats { minute: minute(13, 0), min: 8, max: 8, median: 8 },
        ])
    );
}

#[test]
fn empty_history_gives_an_empty_report() {
    assert_eq!(group_by_minute(&Vec::new()), Some(Vec::new()));
    assert_eq!(group_by_key(&Vec::new()), Vec::new());
    assert_eq!(group_by(&Vec::new()), Some(String::new()));
}

#[test]
fn history_with_a_time_beyond_the_calendar_has_no_report() {
    let history: Vec<(u128, u64)> = vec![(NOON, 30), (u128::MAX, 10)];
    assert_eq!(key_history(&history), None);
    assert_eq!(group_by_minute(&history), None);
    assert_eq!(group_by(&history), None);
}

#[test]
fn key_history_keeps_order_and_latencies() {
    let history: Vec<(u128, u64)> = vec![(NOON + 60_000_000, 3), (NOON, 4)];
    assert_eq!(key_history(&history), Some(vec![(minute(12, 1), 3), (minute(12, 0), 4)]));
}

#[test]
fn only_neighbours_share_a_bucket() {
    let entries = vec![
        (minute(12, 0), 5),
        (minute(12, 0), 1),
        (minute(12, 1), 9),
        (minute(12, 0), 4),
        (minute(12, 0), 2),
        (minute(12, 0), 6),
    ];
    assert_eq!(
        group_by_key(&entries),
        vec![
            MinuteStats { minute: minute(12, 0), min: 1, max: 5, median: 3 },
            MinuteStats { minute: minute(12, 1), min: 9, max: 9, median: 9 },
            MinuteStats { minute: minute(12, 0), min: 2, max: 6, median: 4 },
        ]
    );
}

#[test]
fn decimal_text_of_numbers() {
    for value in [0u64, 1, 9, 10, 11, 99, 100, 1_000_000, 18_446_744_073_709_551_615] {
        let mut text = String::from("x");
        push_decimal(&mut text, value);
        assert_eq!(text, format!("x{}", value));
    }
    for value in [0i32, 7, -1, -10, 2024, i32::MAX, i32::MIN] {
        let mut text = String::new();
        push_signed_decimal(&mut text, value);
        assert_eq!(text, format!("{}", value));
    }
}

#[test]
fn rows_are_rendered_for_a_chart() {
    let report = vec![
        MinuteStats { minute: minute(12, 0), min: 10, max: 1_000_000, median: 30 },
        MinuteStats { minute: minute(12, 1), min: 5, max: 15, median: 10 },
    ];
    assert_eq!(
        render_rows(&report),
        "[new Date(2024, 0, 15, 12, 0), 10, 1000000, 30],\n[new Date(2024, 0, 15, 12, 1), 5, 15, 10]"
    );
    assert_eq!(render_rows(&report[..1].to_vec()), "[new Date(2024, 0, 15, 12, 0), 10, 1000000, 30]");
}

#[test]
fn group_by_renders_the_report_of_a_history() {
    let history: Vec<(u128, u64)> =
        vec![(NOON + 59_900_000, 700), (NOON + 60_100_000, 900), (NOON + 60_200_000, 1_100)];
    assert_eq!(
        group_by(&history),
        Some(String::from(
            "[new Date(2024, 0, 15, 12, 0), 700, 700, 700],\n[new Date(2024, 0, 15, 12, 1), 900, 1100, 1000]"
        ))
    );
}
