//! Post timestamps: read from a source file's name, written in the fixed
//! layouts that names and slugs use.
use vstd::prelude::*;
use chrono::{Datelike, Timelike};
use crate::text::{chars_of, decimal, push_decimal, string_of};

verus! {

/// A wall-clock time in UTC, to the second.
#[derive(Clone, Copy, Debug, PartialEq, Eq, Structural)]
pub struct Timestamp {
    pub year: i32,
    pub month: u32,
    pub day: u32,
    pub hour: u32,
    pub minute: u32,
    pub second: u32,
}

/// What chrono reads from a text in the layout `%Y-%m-%d_%H-%M-%S%z`, if
/// anything.
pub uninterp spec fn parsed_time(s: Seq<char>) -> Option<Timestamp>;

/// Relies on chrono's `DateTime::parse_from_str` with the layout
/// `%Y-%m-%d_%H-%M-%S%z`: whether it succeeds, and the date and time of day
/// it gives, depend on the text alone.
#[verifier::external_body]
fn parse_stamp(s: &str) -> (r: Option<Timestamp>)
    ensures
        r == parsed_time(s@),
{
    match chrono::DateTime::parse_from_str(s, "%Y-%m-%d_%H-%M-%S%z") {
        Ok(t) => Some(
            Timestamp {
                year: t.year(),
                month: t.month(),
                day: t.day(),
                hour: t.hour(),
                minute: t.minute(),
                second: t.second(),
            },
        ),
        Err(_) => None,
    }
}

/// The text that chrono parses for a source file's name: the name without
/// its last 12 characters (`_UTC` and an 8-character extension), followed by
/// the offset `+0000`.
pub open spec fn stamp_text(name: Seq<char>) -> Seq<char> {
    name.subrange(0, name.len() - 12) + seq!['+', '0', '0', '0', '0']
}

/// The timestamp in a source file's name, if the name holds one.
pub open spec fn source_time(name: Seq<char>) -> Option<Timestamp> {
    if name.len() < 12 {
        None
    } else {
        parsed_time(stamp_text(name))
    }
}

/// Reads the timestamp from a source file's name, such as
/// `2021-06-01_12-00-00_UTC.json.xz`; `None` where there is none.
pub fn parse_source_name(name: &str) -> (r: Option<Timestamp>)
    ensures
        r == source_time(name@),
{
    let v = chars_of(name);
    let n = v.len();
    if n < 12 {
        return None;
    }
    let mut t: Vec<char> = Vec::new();
    crate::text::push_range(&mut t, &v, 0, n - 12);
    t.push('+');
    t.push('0');
    t.push('0');
    t.push('0');
    t.push('0');
    assert(t@ =~= stamp_text(name@));
    let s = string_of(&t);
    parse_stamp(s.as_str())
}

/// `n` in decimal with at least two digits.
pub open spec fn two_digits(n: nat) -> Seq<char> {
    if n < 10 {
        seq!['0'] + decimal(n)
    } else {
        decimal(n)
    }
}

/// `n` in decimal with at least four digits.
pub open spec fn four_digits(n: nat) -> Seq<char> {
    if n < 10 {
        seq!['0', '0', '0'] + decimal(n)
    } else if n < 100 {
        seq!['0', '0'] + decimal(n)
    } else if n < 1000 {
        seq!['0'] + decimal(n)
    } else {
        decimal(n)
    }
}

/// A year as `%Y` writes it: four digits, with a sign outside 0 to 9999.
pub open spec fn year_text(y: int) -> Seq<char> {
    if 0 <= y <= 9999 {
        four_digits(y as nat)
    } else if y < 0 {
        seq!['-'] + four_digits((-y) as nat)
    } else {
        seq!['+'] + four_digits(y as nat)
    }
}

/// `%Y-%m-%d`.
pub open spec fn date_text(t: Timestamp) -> Seq<char> {
    year_text(t.year as int) + seq!['-'] + two_digits(t.month as nat) + seq!['-'] + two_digits(
        t.day as nat,
    )
}

/// `%H<sep>%M<sep>%S`.
pub open spec fn clock_text(t: Timestamp, sep: char) -> Seq<char> {
    two_digits(t.hour as nat) + seq![sep] + two_digits(t.minute as nat) + seq![sep] + two_digits(
        t.second as nat,
    )
}

fn push_two_digits(out: &mut Vec<char>, n: u32)
    ensures
        final(out)@ == old(out)@ + two_digits(n as nat),
{
    if n < 10 {
        out.push('0');
    }
    push_decimal(out, n as u64);
    assert(out@ =~= old(out)@ + two_digits(n as nat));
}

fn push_four_digits(out: &mut Vec<char>, n: u64)
    ensures
        final(out)@ == old(out)@ + four_digits(n as nat),
{
    if n < 10 {
        out.push('0');
        out.push('0');
        out.push('0');
    } else if n < 100 {
        out.push('0');
        out.push('0');
    } else if n < 1000 {
        out.push('0');
    }
    push_decimal(out, n);
    assert(out@ =~= old(out)@ + four_digits(n as nat));
}

/// Appends the year as `%Y` writes it.
pub fn push_year(out: &mut Vec<char>, y: i32)
    ensures
        final(out)@ == old(out)@ + year_text(y as int),
{
    if 0 <= y && y <= 9999 {
        push_four_digits(out, y as u64);
    } else if y < 0 {
        out.push('-');
        let a: i64 = -(y as i64);
        push_four_digits(out, a as u64);
    } else {
        out.push('+');
        push_four_digits(out, y as u64);
    }
    assert(out@ =~= old(out)@ + year_text(y as int));
}

/// Appends the date as `%Y-%m-%d`.
pub fn push_date(out: &mut Vec<char>, t: &Timestamp)
    ensures
        final(out)@ == old(out)@ + date_text(*t),
{
    push_year(out, t.year);
    out.push('-');
    push_two_digits(out, t.month);
    out.push('-');
    push_two_digits(out, t.day);
    assert(out@ =~= old(out)@ + date_text(*t));
}

/// Appends the time of day as `%H<sep>%M<sep>%S`.
pub fn push_clock(out: &mut Vec<char>, t: &Timestamp, sep: char)
    ensures
        final(out)@ == old(out)@ + clock_text(*t, sep),
{
    push_two_digits(out, t.hour);
    out.push(sep);
    push_two_digits(out, t.minute);
    out.push(sep);
    push_two_digits(out, t.second);
    assert(out@ =~= old(out)@ + clock_text(*t, sep));
}

} // verus!
