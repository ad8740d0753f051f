//! How far away a due date is, in words: "3 days", "1 hour", "2 months".
use vstd::prelude::*;

use crate::formatting::{
    bright_red, bright_red_code, decimal, decimal_text, lemma_decimal_no_escape, no_escape, red,
    red_bold, red_bold_code, red_code, shown, shown_over,
};
use crate::objects::Timestamp;

verus! {

pub const NANOS_PER_SECOND: i128 = 1_000_000_000;

/// The nanoseconds since the Unix epoch.
pub open spec fn nanos_of(t: Timestamp) -> int {
    t.seconds * 1_000_000_000 + t.nanoseconds
}

/// The distance between `due` and `now`, in nanoseconds.
pub open spec fn span(due: Timestamp, now: Timestamp) -> int {
    let delta = nanos_of(due) - nanos_of(now);
    if delta < 0 {
        -delta
    } else {
        delta
    }
}

pub open spec fn minute() -> int {
    60_000_000_000
}

pub open spec fn hour() -> int {
    3_600_000_000_000
}

pub open spec fn day() -> int {
    86_400_000_000_000
}

pub open spec fn week() -> int {
    604_800_000_000_000
}

/// The number that a span of `d` nanoseconds is shown with: whole seconds,
/// minutes, hours or days below four weeks; then months of four weeks, below
/// fifty-two weeks; then years of fifty-two weeks.
pub open spec fn span_amount(d: int) -> int {
    let secs = d / 1_000_000_000;
    if d < minute() {
        secs
    } else if d < hour() {
        secs / 60
    } else if d < day() {
        secs / 3600
    } else if d < 4 * week() {
        secs / 86400
    } else if d < 52 * week() {
        secs / 604800 / 4
    } else {
        secs / 604800 / 52
    }
}

/// The unit that a span of `d` nanoseconds is shown in.
pub open spec fn span_unit(d: int) -> Seq<char> {
    let secs = d / 1_000_000_000;
    if d < minute() {
        if secs == 1 { "second"@ } else { "seconds"@ }
    } else if d < hour() {
        if secs / 60 == 1 { "minute"@ } else { "minutes"@ }
    } else if d < day() {
        if secs / 3600 == 1 { "hour"@ } else { "hours"@ }
    } else if d < 4 * week() {
        if secs / 86400 == 1 { "day"@ } else { "days"@ }
    } else if d < 52 * week() {
        if secs / 604800 < 6 { "month"@ } else { "months"@ }
    } else {
        if secs / 604800 < 104 { "year"@ } else { "years"@ }
    }
}

/// The colour a span is shown in.
#[derive(Debug, Clone, Copy, PartialEq, Eq, Structural)]
pub enum Tone {
    Red,
    BrightRed,
    Plain,
}

/// Red below a day and at one day, bright red for the other spans below four
/// weeks, plain beyond.
pub open spec fn span_tone(d: int) -> Tone {
    if d < day() {
        Tone::Red
    } else if d < 4 * week() {
        if d / 1_000_000_000 / 86400 == 1 { Tone::Red } else { Tone::BrightRed }
    } else {
        Tone::Plain
    }
}

/// The words for a span of `d` nanoseconds: "<amount> <unit>".
pub open spec fn span_text(d: int) -> Seq<char> {
    decimal(span_amount(d) as nat) + " "@ + span_unit(d)
}

/// A due date described relative to the present moment.
#[derive(Debug)]
pub struct DueDescription {
    pub text: String,
    pub tone: Tone,
    pub overdue: bool,
}

/// Describes `due` as seen at `now`: the span between them in words, its
/// colour, and whether `due` has passed.
pub fn describe_due(due: Timestamp, now: Timestamp) -> (r: DueDescription)
    ensures
        r.text@ == span_text(span(due, now)),
        r.tone == span_tone(span(due, now)),
        r.overdue == (nanos_of(due) < nanos_of(now)),
{
    let due_ns = due.seconds as i128 * NANOS_PER_SECOND + due.nanoseconds as i128;
    let now_ns = now.seconds as i128 * NANOS_PER_SECOND + now.nanoseconds as i128;
    let delta = due_ns - now_ns;
    let overdue = delta < 0;
    let d: i128 = if overdue { -delta } else { delta };
    let secs = d / NANOS_PER_SECOND;
    proof {
        assert(d == span(due, now));
        assert(0 <= secs <= d);
        assert(d <= 2 * 9_223_372_036_854_775_808 * 1_000_000_000 + 5_000_000_000);
    }
    let amount: i128;
    let unit: String;
    if d < 60_000_000_000 {
        amount = secs;
        unit = if secs == 1 { String::from_str("second") } else { String::from_str("seconds") };
    } else if d < 3_600_000_000_000 {
        amount = secs / 60;
        unit = if secs / 60 == 1 { String::from_str("minute") } else { String::from_str("minutes") };
    } else if d < 86_400_000_000_000 {
        amount = secs / 3600;
        unit = if secs / 3600 == 1 { String::from_str("hour") } else { String::from_str("hours") };
    } else if d < 4 * 604_800_000_000_000 {
        amount = secs / 86400;
        unit = if secs / 86400 == 1 { String::from_str("day") } else { String::from_str("days") };
    } else if d < 52 * 604_800_000_000_000 {
        amount = secs / 604800 / 4;
        unit = if secs / 604800 < 6 { String::from_str("month") } else { String::from_str("months") };
    } else {
        amount = secs / 604800 / 52;
        unit = if secs / 604800 < 104 { String::from_str("year") } else { String::from_str("years") };
    }
    let tone = if d < 86_400_000_000_000 {
        Tone::Red
    } else if d < 4 * 604_800_000_000_000 {
        if secs / 86400 == 1 { Tone::Red } else { Tone::BrightRed }
    } else {
        Tone::Plain
    };
    proof {
        assert(amount == span_amount(d as int));
        assert(0 <= amount <= secs);
        assert(secs / 604800 / 52 <= secs);
        assert(amount <= u64::MAX) by {
            if d >= 52 * 604_800_000_000_000 {
                assert(secs <= 20_000_000_000_000_000_000);
                vstd::arithmetic::div_mod::lemma_div_is_ordered(secs as int, 20_000_000_000_000_000_000, 604800);
                assert(secs / 604800 <= 40_000_000_000_000);
            }
        }
    }
    let text = decimal_text(amount as u64).concat(" ").concat(unit.as_str());
    DueDescription { text, tone, overdue }
}

/// `r` shows `s` in the colour `tone` (or plain, where the terminal takes no
/// colour).
pub open spec fn toned(r: Seq<char>, tone: Tone, s: Seq<char>) -> bool {
    match tone {
        Tone::Red => shown(r, red_code(), s),
        Tone::BrightRed => shown(r, bright_red_code(), s),
        Tone::Plain => r == s,
    }
}

proof fn lemma_span_text_no_escape(d: int)
    ensures
        no_escape(span_text(d)),
{
    reveal_strlit(" ");
    reveal_strlit("second");
    reveal_strlit("seconds");
    reveal_strlit("minute");
    reveal_strlit("minutes");
    reveal_strlit("hour");
    reveal_strlit("hours");
    reveal_strlit("day");
    reveal_strlit("days");
    reveal_strlit("month");
    reveal_strlit("months");
    reveal_strlit("year");
    reveal_strlit("years");
    lemma_decimal_no_escape(span_amount(d) as nat);
    let t = span_text(d);
    let a = decimal(span_amount(d) as nat);
    let u = span_unit(d);
    assert(no_escape(u));
    assert forall|i: int| 0 <= i < t.len() implies t[i] != '\x1b' by {
        if i < a.len() {
            assert(t[i] == a[i]);
        } else if i > a.len() {
            assert(t[i] == u[i - a.len() - 1]);
        }
    }
}

/// `r` shows how far away `due` is at `now`: the span's words in its tone,
/// and, when `due` has passed, that in bold red.
pub open spec fn due_shown(r: Seq<char>, due: Timestamp, now: Timestamp) -> bool {
    exists|inner: Seq<char>|
        #![trigger toned(inner, span_tone(span(due, now)), span_text(span(due, now)))]
        toned(inner, span_tone(span(due, now)), span_text(span(due, now))) && if nanos_of(due)
            < nanos_of(now) {
            shown_over(r, red_bold_code(), inner)
        } else {
            r == inner
        }
}

/// How far away `due` is, as seen at `now`: the span in words, coloured by
/// `span_tone`, and, when `due` has passed, the whole in bold red.
pub fn format_due_date(due: Timestamp, now: Timestamp) -> (r: String)
    ensures
        due_shown(r@, due, now),
{
    let description = describe_due(due, now);
    proof {
        lemma_span_text_no_escape(span(due, now));
    }
    let inner = match description.tone {
        Tone::Red => red(description.text.as_str()),
        Tone::BrightRed => bright_red(description.text.as_str()),
        Tone::Plain => description.text,
    };
    assert(toned(inner@, span_tone(span(due, now)), span_text(span(due, now))));
    if description.overdue {
        red_bold(inner.as_str())
    } else {
        inner
    }
}

} // verus!
