//! UTC timestamps for log lines, in the form `YYYY-MM-DDTHH:MM:SS.mmm`.

use vstd::prelude::*;

use crate::calendar::{
    civil_from_days, date_of_day, lemma_date_of_day, lemma_days_from_civil_monotone,
    lemma_year_of_day_at_most_9999, lemma_year_of_nonnegative_day,
};
use crate::text::{
    lemma_text_lt_concat, lemma_zero_padded_len, lemma_zero_padded_lt, push_char, push_zero_padded,
    text_lt, zero_padded,
};

verus! {

/// The text of a timestamp with the given fields.
pub open spec fn timestamp_text(
    year: nat,
    month: nat,
    day: nat,
    hour: nat,
    minute: nat,
    second: nat,
    millis: nat,
) -> Seq<char> {
    zero_padded(year, 4) + seq!['-'] + zero_padded(month, 2) + seq!['-'] + zero_padded(day, 2)
        + seq!['T'] + zero_padded(hour, 2) + seq![':'] + zero_padded(minute, 2) + seq![':']
        + zero_padded(second, 2) + seq!['.'] + zero_padded(millis, 3)
}

/// The timestamp of the instant `secs` seconds and `millis` milliseconds after
/// 1970-01-01T00:00:00 UTC.
pub open spec fn log_timestamp_text(secs: nat, millis: nat) -> Seq<char> {
    let date = date_of_day((secs / 86400) as int);
    let tod = secs % 86400;
    timestamp_text(
        date.0 as nat,
        date.1 as nat,
        date.2 as nat,
        tod / 3600,
        (tod % 3600) / 60,
        tod % 60,
        millis,
    )
}

/// `t` is the timestamp of some instant at or after the Unix epoch.
pub open spec fn is_log_timestamp(t: Seq<char>) -> bool {
    exists|secs: nat, millis: nat| millis < 1000 && t == log_timestamp_text(secs, millis)
}

/// Before the year 10000 a timestamp has the fixed layout `YYYY-MM-DDTHH:MM:SS.mmm`: 23
/// characters, with the separators at their places.
pub proof fn lemma_log_timestamp_layout(secs: nat, millis: nat)
    requires
        secs < 253_402_300_800,
        millis < 1000,
    ensures
        ({
            let t = log_timestamp_text(secs, millis);
            &&& t.len() == 23
            &&& t[4] == '-'
            &&& t[7] == '-'
            &&& t[10] == 'T'
            &&& t[13] == ':'
            &&& t[16] == ':'
            &&& t[19] == '.'
        }),
{
    let z = (secs / 86400) as int;
    let date = date_of_day(z);
    lemma_date_of_day(z);
    lemma_year_of_nonnegative_day(date.0, date.1, date.2);
    lemma_year_of_day_at_most_9999(date.0, date.1, date.2);
    let tod = secs % 86400;
    lemma_zero_padded_len(date.0 as nat, 4);
    lemma_zero_padded_len(date.1 as nat, 2);
    lemma_zero_padded_len(date.2 as nat, 2);
    lemma_zero_padded_len(tod / 3600, 2);
    lemma_zero_padded_len((tod % 3600) / 60, 2);
    lemma_zero_padded_len(tod % 60, 2);
    lemma_zero_padded_len(millis, 3);
}

proof fn lemma_field_lt(
    sep: Seq<char>,
    f1: nat,
    f2: nat,
    width: nat,
    r1: Seq<char>,
    r2: Seq<char>,
)
    requires
        2 <= width <= 4,
        width == 2 ==> f1 < 100 && f2 < 100,
        width == 3 ==> f1 < 1000 && f2 < 1000,
        width == 4 ==> f1 < 10000 && f2 < 10000,
        r1.len() == r2.len(),
        f1 < f2 || (f1 == f2 && text_lt(r1, r2)),
    ensures
        text_lt(sep + zero_padded(f1, width) + r1, sep + zero_padded(f2, width) + r2),
{
    lemma_zero_padded_len(f1, width);
    lemma_zero_padded_len(f2, width);
    if f1 < f2 {
        lemma_zero_padded_lt(f1, f2, width);
        lemma_text_lt_concat(sep, zero_padded(f1, width), sep, zero_padded(f2, width));
    }
    lemma_text_lt_concat(
        sep + zero_padded(f1, width),
        r1,
        sep + zero_padded(f2, width),
        r2,
    );
}

/// Timestamps of fields in the order of (year, month, day, hour, minute, second,
/// milliseconds) are in the order of strings.
proof fn lemma_timestamp_text_lt(y1: nat, mo1: nat, d1: nat, h1: nat, mi1: nat, s1: nat, ms1: nat, y2: nat, mo2: nat, d2: nat, h2: nat, mi2: nat, s2: nat, ms2: nat)
    requires
        y1 < 10000 && y2 < 10000,
        mo1 < 100 && mo2 < 100,
        d1 < 100 && d2 < 100,
        h1 < 100 && h2 < 100,
        mi1 < 100 && mi2 < 100,
        s1 < 100 && s2 < 100,
        ms1 < 1000 && ms2 < 1000,
        y1 < y2 || (y1 == y2 && (mo1 < mo2 || (mo1 == mo2 && (d1 < d2 || (d1 == d2 && (h1 < h2 || (h1 == h2 && (mi1 < mi2 || (mi1 == mi2 && (s1 < s2 || (s1 == s2 && (ms1 < ms2)))))))))))),
    ensures
        text_lt(
            timestamp_text(y1, mo1, d1, h1, mi1, s1, ms1),
            timestamp_text(y2, mo2, d2, h2, mi2, s2, ms2),
        ),
{
    let r7_1 = Seq::<char>::empty();
    let r6_1 = seq!['.'] + zero_padded(ms1, 3) + r7_1;
    let r5_1 = seq![':'] + zero_padded(s1, 2) + r6_1;
    let r4_1 = seq![':'] + zero_padded(mi1, 2) + r5_1;
    let r3_1 = seq!['T'] + zero_padded(h1, 2) + r4_1;
    let r2_1 = seq!['-'] + zero_padded(d1, 2) + r3_1;
    let r1_1 = seq!['-'] + zero_padded(mo1, 2) + r2_1;
    let r0_1 = Seq::<char>::empty() + zero_padded(y1, 4) + r1_1;
    let r7_2 = Seq::<char>::empty();
    let r6_2 = seq!['.'] + zero_padded(ms2, 3) + r7_2;
    let r5_2 = seq![':'] + zero_padded(s2, 2) + r6_2;
    let r4_2 = seq![':'] + zero_padded(mi2, 2) + r5_2;
    let r3_2 = seq!['T'] + zero_padded(h2, 2) + r4_2;
    let r2_2 = seq!['-'] + zero_padded(d2, 2) + r3_2;
    let r1_2 = seq!['-'] + zero_padded(mo2, 2) + r2_2;
    let r0_2 = Seq::<char>::empty() + zero_padded(y2, 4) + r1_2;
    lemma_zero_padded_len(y1, 4);
    lemma_zero_padded_len(mo1, 2);
    lemma_zero_padded_len(d1, 2);
    lemma_zero_padded_len(h1, 2);
    lemma_zero_padded_len(mi1, 2);
    lemma_zero_padded_len(s1, 2);
    lemma_zero_padded_len(ms1, 3);
    lemma_zero_padded_len(y2, 4);
    lemma_zero_padded_len(mo2, 2);
    lemma_zero_padded_len(d2, 2);
    lemma_zero_padded_len(h2, 2);
    lemma_zero_padded_len(mi2, 2);
    lemma_zero_padded_len(s2, 2);
    lemma_zero_padded_len(ms2, 3);
    assert(timestamp_text(y1, mo1, d1, h1, mi1, s1, ms1) =~= r0_1);
    assert(timestamp_text(y2, mo2, d2, h2, mi2, s2, ms2) =~= r0_2);
    if y1 != y2 {
        lemma_field_lt(Seq::<char>::empty(), y1, y2, 4, r1_1, r1_2);
    } else if mo1 != mo2 {
        lemma_field_lt(seq!['-'], mo1, mo2, 2, r2_1, r2_2);
        lemma_field_lt(Seq::<char>::empty(), y1, y2, 4, r1_1, r1_2);
    } else if d1 != d2 {
        lemma_field_lt(seq!['-'], d1, d2, 2, r3_1, r3_2);
        lemma_field_lt(seq!['-'], mo1, mo2, 2, r2_1, r2_2);
        lemma_field_lt(Seq::<char>::empty(), y1, y2, 4, r1_1, r1_2);
    } else if h1 != h2 {
        lemma_field_lt(seq!['T'], h1, h2, 2, r4_1, r4_2);
        lemma_field_lt(seq!['-'], d1, d2, 2, r3_1, r3_2);
        lemma_field_lt(seq!['-'], mo1, mo2, 2, r2_1, r2_2);
        lemma_field_lt(Seq::<char>::empty(), y1, y2, 4, r1_1, r1_2);
    } else if mi1 != mi2 {
        lemma_field_lt(seq![':'], mi1, mi2, 2, r5_1, r5_2);
        lemma_field_lt(seq!['T'], h1, h2, 2, r4_1, r4_2);
        lemma_field_lt(seq!['-'], d1, d2, 2, r3_1, r3_2);
        lemma_field_lt(seq!['-'], mo1, mo2, 2, r2_1, r2_2);
        lemma_field_lt(Seq::<char>::empty(), y1, y2, 4, r1_1, r1_2);
    } else if s1 != s2 {
        lemma_field_lt(seq![':'], s1, s2, 2, r6_1, r6_2);
        lemma_field_lt(seq![':'], mi1, mi2, 2, r5_1, r5_2);
        lemma_field_lt(seq!['T'], h1, h2, 2, r4_1, r4_2);
        lemma_field_lt(seq!['-'], d1, d2, 2, r3_1, r3_2);
        lemma_field_lt(seq!['-'], mo1, mo2, 2, r2_1, r2_2);
        lemma_field_lt(Seq::<char>::empty(), y1, y2, 4, r1_1, r1_2);
    } else {
        lemma_field_lt(seq!['.'], ms1, ms2, 3, r7_1, r7_2);
        lemma_field_lt(seq![':'], s1, s2, 2, r6_1, r6_2);
        lemma_field_lt(seq![':'], mi1, mi2, 2, r5_1, r5_2);
        lemma_field_lt(seq!['T'], h1, h2, 2, r4_1, r4_2);
        lemma_field_lt(seq!['-'], d1, d2, 2, r3_1, r3_2);
        lemma_field_lt(seq!['-'], mo1, mo2, 2, r2_1, r2_2);
        lemma_field_lt(Seq::<char>::empty(), y1, y2, 4, r1_1, r1_2);
    }
}

/// Timestamps before the year 10000 are in the order of the instants they name: of two
/// readings, the earlier gives the text that comes first in the order of strings, so that
/// distinct readings give distinct texts.
pub proof fn lemma_log_timestamp_order(secs1: nat, millis1: nat, secs2: nat, millis2: nat)
    requires
        secs1 < secs2 || (secs1 == secs2 && millis1 < millis2),
        secs2 < 253_402_300_800,
        millis1 < 1000,
        millis2 < 1000,
    ensures
        text_lt(log_timestamp_text(secs1, millis1), log_timestamp_text(secs2, millis2)),
{
    let z1 = (secs1 / 86400) as int;
    let z2 = (secs2 / 86400) as int;
    let t1 = date_of_day(z1);
    let t2 = date_of_day(z2);
    lemma_date_of_day(z1);
    lemma_date_of_day(z2);
    lemma_year_of_nonnegative_day(t1.0, t1.1, t1.2);
    lemma_year_of_nonnegative_day(t2.0, t2.1, t2.2);
    lemma_year_of_day_at_most_9999(t1.0, t1.1, t1.2);
    lemma_year_of_day_at_most_9999(t2.0, t2.1, t2.2);
    let date_lt = t1.0 < t2.0 || (t1.0 == t2.0 && (t1.1 < t2.1 || (t1.1 == t2.1 && t1.2 < t2.2)));
    if z1 < z2 && !date_lt {
        if t1 != t2 {
            lemma_days_from_civil_monotone(t2.0, t2.1, t2.2, t1.0, t1.1, t1.2);
        }
    }
    let tod1 = secs1 % 86400;
    let tod2 = secs2 % 86400;
    lemma_timestamp_text_lt(
        t1.0 as nat,
        t1.1 as nat,
        t1.2 as nat,
        tod1 / 3600,
        (tod1 % 3600) / 60,
        tod1 % 60,
        millis1,
        t2.0 as nat,
        t2.1 as nat,
        t2.2 as nat,
        tod2 / 3600,
        (tod2 % 3600) / 60,
        tod2 % 60,
        millis2,
    );
}

/// Formats the instant `secs` seconds and `millis` milliseconds after the Unix epoch.
pub fn format_timestamp(secs: u64, millis: u32) -> (r: String)
    ensures
        r@ == log_timestamp_text(secs as nat, millis as nat),
{
    let days = (secs / 86_400) as i64;
    let tod = secs % 86_400;
    let hour = tod / 3600;
    let minute = (tod % 3600) / 60;
    let second = tod % 60;
    let (year, month, day) = civil_from_days(days);
    proof {
        let date = date_of_day(days as int);
        lemma_date_of_day(days as int);
        lemma_year_of_nonnegative_day(date.0, date.1, date.2);
    }
    let mut out = String::new();
    push_zero_padded(&mut out, year as u64, 4);
    push_char(&mut out, '-');
    push_zero_padded(&mut out, month as u64, 2);
    push_char(&mut out, '-');
    push_zero_padded(&mut out, day as u64, 2);
    push_char(&mut out, 'T');
    push_zero_padded(&mut out, hour, 2);
    push_char(&mut out, ':');
    push_zero_padded(&mut out, minute, 2);
    push_char(&mut out, ':');
    push_zero_padded(&mut out, second, 2);
    push_char(&mut out, '.');
    push_zero_padded(&mut out, millis as u64, 3);
    assert(out@ =~= log_timestamp_text(secs as nat, millis as nat));
    out
}

/// Reads the system clock through `SystemTime::now().duration_since(UNIX_EPOCH)`: `None` for
/// a clock set before the epoch, otherwise the whole seconds (`Duration::as_secs`) and the
/// milliseconds of the fraction of a second (`Duration::subsec_millis`). Of the reading
/// nothing is promised but that the milliseconds are a fraction of a second, as
/// `subsec_millis` documents.
#[verifier::external_body]
fn clock_since_epoch() -> (r: Option<(u64, u32)>)
    ensures
        r matches Some(t) ==> t.1 < 1000,
{
    match std::time::SystemTime::now().duration_since(std::time::UNIX_EPOCH) {
        Ok(d) => Some((d.as_secs(), d.subsec_millis())),
        Err(_) => None,
    }
}

/// The timestamp of a clock reading: a clock set before the epoch reads as the epoch.
pub fn timestamp_of_reading(reading: Option<(u64, u32)>) -> (r: String)
    ensures
        r@ == match reading {
            Some(t) => log_timestamp_text(t.0 as nat, t.1 as nat),
            None => log_timestamp_text(0, 0),
        },
{
    match reading {
        Some((secs, millis)) => format_timestamp(secs, millis),
        None => format_timestamp(0, 0),
    }
}

/// RFC3339-style UTC timestamp for a log line: `YYYY-MM-DDTHH:MM:SS.mmm`.
pub fn log_timestamp() -> (r: String)
    ensures
        is_log_timestamp(r@),
{
    let reading = clock_since_epoch();
    let r = timestamp_of_reading(reading);
    proof {
        match reading {
            Some(t) => {
                assert(t.1 < 1000 && r@ == log_timestamp_text(t.0 as nat, t.1 as nat));
            },
            None => {
                assert(r@ == log_timestamp_text(0, 0));
            },
        }
    }
    r
}

} // verus!
