//! The report as text: one row per bucket, in the form that a chart's data
//! table takes, `[new Date(year, month, day, hour, minute), min, max, median]`,
//! with the month counted from 0.

use crate::report::{group_by_minute, report_of, MinuteKey, MinuteStats};
use vstd::prelude::*;
use vstd::string::StringExecFns;

verus! {

/// The character of the decimal digit `digit`.
pub open spec fn digit_char(digit: int) -> char {
    seq!['0', '1', '2', '3', '4', '5', '6', '7', '8', '9'][digit]
}

/// The decimal digits of `value`, without leading zeros.
pub open spec fn decimal(value: nat) -> Seq<char>
    decreases value,
{
    if value < 10 {
        seq![digit_char(value as int)]
    } else {
        decimal(value / 10).push(digit_char((value % 10) as int))
    }
}

/// The decimal digits of `value`, behind a minus sign where it is negative.
pub open spec fn signed_decimal(value: int) -> Seq<char> {
    if value < 0 {
        seq!['-'] + decimal((-value) as nat)
    } else {
        decimal(value as nat)
    }
}

/// The five fields of a minute, separated by a comma and a space.
pub open spec fn minute_text(minute: MinuteKey) -> Seq<char> {
    signed_decimal(minute.year as int) + ", "@ + decimal(minute.month0 as nat) + ", "@ + decimal(
        minute.day as nat,
    ) + ", "@ + decimal(minute.hour as nat) + ", "@ + decimal(minute.minute as nat)
}

/// The row of one bucket.
pub open spec fn row_text(stats: MinuteStats) -> Seq<char> {
    "[new Date("@ + minute_text(stats.minute) + "), "@ + decimal(stats.min as nat) + ", "@
        + decimal(stats.max as nat) + ", "@ + decimal(stats.median as nat) + "]"@
}

/// The rows of a report, each but the last followed by a comma and a line
/// break.
pub open spec fn rows_text(report: Seq<MinuteStats>) -> Seq<char>
    decreases report.len(),
{
    if report.len() == 0 {
        Seq::empty()
    } else if report.len() == 1 {
        row_text(report[0])
    } else {
        rows_text(report.drop_last()) + ",\n"@ + row_text(report.last())
    }
}

/// The text of one decimal digit.
fn digit_text(digit: u64) -> (text: &'static str)
    requires
        digit < 10,
    ensures
        text@ == seq![digit_char(digit as int)],
{
    proof {
        reveal_strlit("0");
        reveal_strlit("1");
        reveal_strlit("2");
        reveal_strlit("3");
        reveal_strlit("4");
        reveal_strlit("5");
        reveal_strlit("6");
        reveal_strlit("7");
        reveal_strlit("8");
        reveal_strlit("9");
    }
    let text: &'static str = if digit == 0 {
        "0"
    } else if digit == 1 {
        "1"
    } else if digit == 2 {
        "2"
    } else if digit == 3 {
        "3"
    } else if digit == 4 {
        "4"
    } else if digit == 5 {
        "5"
    } else if digit == 6 {
        "6"
    } else if digit == 7 {
        "7"
    } else if digit == 8 {
        "8"
    } else {
        "9"
    };
    proof {
        assert(text@ =~= seq![digit_char(digit as int)]);
    }
    text
}

/// Appends the decimal digits of `value`.
pub fn push_decimal(out: &mut String, value: u64)
    ensures
        final(out)@ == old(out)@ + decimal(value as nat),
    decreases value,
{
    if value >= 10 {
        push_decimal(out, value / 10);
    }
    out.append(digit_text(value % 10));
    proof {
        assert(out@ =~= old(out)@ + decimal(value as nat));
    }
}

/// Appends the decimal digits of `value`, behind a minus sign where it is
/// negative.
pub fn push_signed_decimal(out: &mut String, value: i32)
    ensures
        final(out)@ == old(out)@ + signed_decimal(value as int),
{
    if value < 0 {
        proof {
            reveal_strlit("-");
        }
        out.append("-");
        let size: u64 = (-(value as i64)) as u64;
        push_decimal(out, size);
        proof {
            assert(out@ =~= old(out)@ + signed_decimal(value as int));
        }
    } else {
        push_decimal(out, value as u64);
    }
}

/// Appends the row of one bucket.
pub fn push_row(out: &mut String, stats: &MinuteStats)
    ensures
        final(out)@ == old(out)@ + row_text(*stats),
{
    out.append("[new Date(");
    push_signed_decimal(out, stats.minute.year);
    out.append(", ");
    push_decimal(out, stats.minute.month0 as u64);
    out.append(", ");
    push_decimal(out, stats.minute.day as u64);
    out.append(", ");
    push_decimal(out, stats.minute.hour as u64);
    out.append(", ");
    push_decimal(out, stats.minute.minute as u64);
    out.append("), ");
    push_decimal(out, stats.min);
    out.append(", ");
    push_decimal(out, stats.max);
    out.append(", ");
    push_decimal(out, stats.median);
    out.append("]");
    proof {
        assert(out@ =~= old(out)@ + row_text(*stats));
    }
}

/// Renders the rows of a report.
pub fn render_rows(report: &Vec<MinuteStats>) -> (text: String)
    ensures
        text@ == rows_text(report@),
{
    let mut text = String::new();
    let mut i: usize = 0;
    while i < report.len()
        invariant
            i <= report@.len(),
            text@ == rows_text(report@.subrange(0, i as int)),
        decreases report@.len() - i,
    {
        proof {
            assert(report@.subrange(0, i + 1).drop_last() =~= report@.subrange(0, i as int));
            assert(report@.subrange(0, i + 1).last() == report@[i as int]);
            assert(report@.subrange(0, 1)[0] == report@[0]);
        }
        let ghost before = text@;
        if i > 0 {
            text.append(",\n");
        }
        push_row(&mut text, &report[i]);
        proof {
            if i == 0 {
                assert(before =~= Seq::<char>::empty());
                assert(text@ =~= row_text(report@[0]));
            }
        }
        i += 1;
    }
    proof {
        assert(report@.subrange(0, i as int) =~= report@);
    }
    text
}

/// Summarises a history of send times and latencies, oldest first, and
/// renders the report. There is no text where some entry was sent at a time
/// that the calendar cannot name.
pub fn group_by(history: &Vec<(u128, u64)>) -> (text: Option<String>)
    ensures
        match report_of(history@) {
            Some(report) => text matches Some(rows) && rows@ == rows_text(report),
            None => text is None,
        },
{
    match group_by_minute(history) {
        Some(report) => Some(render_rows(&report)),
        None => None,
    }
}

} // verus!
