//! Points in time, and the business days between two of them.

use crate::table::{cells_fit, Cell, Column, ColumnView, DataType};
use time::format_description::well_known::Rfc3339;
use time::OffsetDateTime;
use vstd::prelude::*;

verus! {

/// The earliest second, counted from the Unix epoch, that a `DateTime` can hold.
pub const MIN_UNIX_SECONDS: i64 = -9_000_000_000_000_000;

/// The latest second, counted from the Unix epoch, that a `DateTime` can hold. The bounds
/// leave room for a count of milliseconds in 64 bits.
pub const MAX_UNIX_SECONDS: i64 = 9_000_000_000_000_000;

/// The number of nanoseconds in a second.
pub const NANOS_PER_SECOND: u32 = 1_000_000_000;

/// The mathematical content of a `DateTime`.
pub struct DateTimeView {
    /// Seconds since the Unix epoch.
    pub unix_seconds: int,
    /// Nanoseconds within the second.
    pub nanosecond: int,
    /// The offset from UTC in which the point in time was written, in seconds.
    pub offset_seconds: int,
}

/// A point in time, together with the offset from UTC in which it was written.
#[derive(Clone, Copy, Debug, PartialEq, Eq, Structural)]
pub struct DateTime {
    unix_seconds: i64,
    nanosecond: u32,
    offset_seconds: i32,
}

/// Whether a count of seconds and of nanoseconds can stand in a `DateTime`.
pub open spec fn in_range(unix_seconds: int, nanosecond: int) -> bool {
    MIN_UNIX_SECONDS <= unix_seconds <= MAX_UNIX_SECONDS && 0 <= nanosecond < NANOS_PER_SECOND
}

impl View for DateTime {
    type V = DateTimeView;

    closed spec fn view(&self) -> DateTimeView {
        DateTimeView {
            unix_seconds: self.unix_seconds as int,
            nanosecond: self.nanosecond as int,
            offset_seconds: self.offset_seconds as int,
        }
    }
}

impl DateTime {
    #[verifier::type_invariant]
    closed spec fn inv(&self) -> bool {
        in_range(self.unix_seconds as int, self.nanosecond as int)
    }

    /// Makes a point in time, if the counts are in range.
    pub fn new(unix_seconds: i64, nanosecond: u32, offset_seconds: i32) -> (r: Option<DateTime>)
        ensures
            r is Some <==> in_range(unix_seconds as int, nanosecond as int),
            r matches Some(d) ==> d@ == (DateTimeView {
                unix_seconds: unix_seconds as int,
                nanosecond: nanosecond as int,
                offset_seconds: offset_seconds as int,
            }),
    {
        if MIN_UNIX_SECONDS <= unix_seconds && unix_seconds <= MAX_UNIX_SECONDS && nanosecond
            < NANOS_PER_SECOND {
            Some(DateTime { unix_seconds, nanosecond, offset_seconds })
        } else {
            None
        }
    }

    /// Seconds since the Unix epoch.
    pub fn unix_seconds(&self) -> (r: i64)
        ensures
            r == self@.unix_seconds,
            in_range(self@.unix_seconds, self@.nanosecond),
    {
        proof {
            use_type_invariant(self);
        }
        self.unix_seconds
    }

    /// Nanoseconds within the second.
    pub fn nanosecond(&self) -> (r: u32)
        ensures
            r == self@.nanosecond,
            in_range(self@.unix_seconds, self@.nanosecond),
    {
        proof {
            use_type_invariant(self);
        }
        self.nanosecond
    }

    /// The offset from UTC, in seconds.
    pub fn offset_seconds(&self) -> (r: i32)
        ensures
            r == self@.offset_seconds,
    {
        self.offset_seconds
    }
}

/// What `time::OffsetDateTime::parse` reads from `text` under the `Rfc3339` description: the
/// Unix timestamp, the nanosecond and the offset in whole seconds of the date and time that
/// `text` holds, or `None` where it rejects `text`.
pub uninterp spec fn rfc3339_reading(text: Seq<char>) -> Option<(i64, u32, i32)>;

/// Calls `time::OffsetDateTime::parse` with the `Rfc3339` description, and takes from what it
/// gives the Unix timestamp, the nanosecond and the offset in whole seconds. That the outcome
/// is a function of the text alone is taken on trust.
#[verifier::external_body]
fn read_rfc3339(text: &str) -> (r: Option<(i64, u32, i32)>)
    ensures
        r == rfc3339_reading(text@),
{
    match OffsetDateTime::parse(text, &Rfc3339) {
        Ok(t) => Some((t.unix_timestamp(), t.nanosecond(), t.offset().whole_seconds())),
        Err(_) => None,
    }
}

/// The point in time that an RFC 3339 timestamp holds, where it is one and is in range.
pub open spec fn timestamp_of(reading: Option<(i64, u32, i32)>) -> Option<DateTimeView> {
    match reading {
        Some((unix_seconds, nanosecond, offset_seconds)) => if in_range(
            unix_seconds as int,
            nanosecond as int,
        ) {
            Some(
                DateTimeView {
                    unix_seconds: unix_seconds as int,
                    nanosecond: nanosecond as int,
                    offset_seconds: offset_seconds as int,
                },
            )
        } else {
            None
        },
        None => None,
    }
}

/// The view of a point in time that may be absent.
pub open spec fn optional_view(d: Option<DateTime>) -> Option<DateTimeView> {
    match d {
        Some(d) => Some(d@),
        None => None,
    }
}

/// Makes a point in time of what was read from a timestamp.
pub fn timestamp_from_reading(reading: Option<(i64, u32, i32)>) -> (r: Option<DateTime>)
    ensures
        optional_view(r) == timestamp_of(reading),
{
    match reading {
        Some((unix_seconds, nanosecond, offset_seconds)) => DateTime::new(
            unix_seconds,
            nanosecond,
            offset_seconds,
        ),
        None => None,
    }
}

/// Reads an RFC 3339 timestamp.
pub fn parse_rfc3339(text: &str) -> (r: Option<DateTime>)
    ensures
        optional_view(r) == timestamp_of(rfc3339_reading(text@)),
{
    timestamp_from_reading(read_rfc3339(text))
}

/// Whether `a` is no later than `b`. The offsets play no part.
pub open spec fn not_after(a: DateTimeView, b: DateTimeView) -> bool {
    a.unix_seconds < b.unix_seconds || (a.unix_seconds == b.unix_seconds && a.nanosecond
        <= b.nanosecond)
}

/// The day of the week on which `d` falls in its own offset: 0 for Monday to 6 for Sunday.
pub open spec fn weekday_index(d: DateTimeView) -> int {
    ((d.unix_seconds + d.offset_seconds) / 86_400 + 3) % 7
}

/// The milliseconds from the Unix epoch to `d`.
pub open spec fn unix_millis(d: DateTimeView) -> int {
    d.unix_seconds * 1000 + d.nanosecond / 1_000_000
}

/// `d`, one day later.
pub open spec fn next_day(d: DateTimeView) -> DateTimeView {
    DateTimeView {
        unix_seconds: d.unix_seconds + 86_400,
        nanosecond: d.nanosecond,
        offset_seconds: d.offset_seconds,
    }
}

/// The business days among `current`, the day after it, and so on up to `end`: for each such
/// point in time that falls on a day from Monday to Friday, its milliseconds from the Unix
/// epoch.
pub open spec fn business_days(current: DateTimeView, end: DateTimeView) -> Seq<Cell>
    decreases end.unix_seconds - current.unix_seconds + 86_400,
{
    if not_after(current, end) {
        let rest = business_days(next_day(current), end);
        if weekday_index(current) < 5 {
            seq![Cell::Int(unix_millis(current) as i64)] + rest
        } else {
            rest
        }
    } else {
        Seq::empty()
    }
}

/// The column of the business days from `start` to `end`.
pub open spec fn business_day_column(start: DateTimeView, end: DateTimeView) -> ColumnView {
    ColumnView { name: "Business days"@, dtype: DataType::Int, cells: business_days(start, end) }
}

/// The day of the week of the second `unix_seconds` in the offset `offset_seconds`.
fn weekday(unix_seconds: i64, offset_seconds: i32) -> (r: u8)
    requires
        MIN_UNIX_SECONDS <= unix_seconds <= MAX_UNIX_SECONDS,
    ensures
        r == ((unix_seconds + offset_seconds) / 86_400 + 3) % 7,
        r < 7,
{
    // 1970-01-01 was a Thursday. A whole number of weeks is put before the epoch, so that the
    // division is one of natural numbers.
    let weeks: i64 = 14_900_000_000;
    let local: i64 = unix_seconds + offset_seconds as i64;
    let shifted: i64 = local + weeks * 604_800;
    let days: i64 = shifted / 86_400;
    let r = (days + 3) % 7;
    proof {
        let l = local as int;
        let w = weeks as int;
        assert(shifted == l + (w * 7) * 86_400);
        vstd::arithmetic::div_mod::lemma_fundamental_div_mod(l, 86_400);
        vstd::arithmetic::div_mod::lemma_fundamental_div_mod_converse(
            shifted as int,
            86_400,
            l / 86_400 + w * 7,
            l % 86_400,
        );
        assert(days == l / 86_400 + w * 7);
        vstd::arithmetic::div_mod::lemma_mod_multiples_vanish(w, l / 86_400 + 3, 7);
        assert(r == (l / 86_400 + 3) % 7);
    }
    r as u8
}

/// The business days from `start` to `end`: `start`, the same time one day later, and so on
/// while the time is no later than `end`, without those that fall on a Saturday or a Sunday
/// in the offset of `start`. Each is given as its milliseconds from the Unix epoch, in a
/// column called `Business days`.
pub fn generate_business_days(start: &DateTime, end: &DateTime) -> (days: Column)
    ensures
        days@ == business_day_column(start@, end@),
{
    let nanosecond = start.nanosecond();
    let offset_seconds = start.offset_seconds();
    let last = end.unix_seconds();
    let last_nanosecond = end.nanosecond();
    let mut current: i64 = start.unix_seconds();
    let mut cells: Vec<Cell> = Vec::new();
    while current < last || (current == last && nanosecond <= last_nanosecond)
        invariant
            MIN_UNIX_SECONDS <= current,
            current <= MAX_UNIX_SECONDS + 86_400,
            in_range(end@.unix_seconds, end@.nanosecond),
            last == end@.unix_seconds,
            last_nanosecond == end@.nanosecond,
            nanosecond == start@.nanosecond,
            nanosecond < NANOS_PER_SECOND,
            offset_seconds == start@.offset_seconds,
            cells_fit(cells@, DataType::Int),
            cells@ + business_days(
                DateTimeView {
                    unix_seconds: current as int,
                    nanosecond: nanosecond as int,
                    offset_seconds: offset_seconds as int,
                },
                end@,
            ) == business_days(start@, end@),
        decreases last - current + 86_400,
    {
        let ghost now = DateTimeView {
            unix_seconds: current as int,
            nanosecond: nanosecond as int,
            offset_seconds: offset_seconds as int,
        };
        let ghost before = cells@;
        if weekday(current, offset_seconds) < 5 {
            let millis: i64 = current * 1000 + (nanosecond / 1_000_000) as i64;
            cells.push(Cell::Int(millis));
            assert(cells@ + business_days(next_day(now), end@) =~= before + (seq![
                Cell::Int(unix_millis(now) as i64),
            ] + business_days(next_day(now), end@)));
        }
        current = current + 86_400;
    }
    proof {
        assert(cells@ + Seq::<Cell>::empty() =~= cells@);
    }
    Column::from_parts("Business days".to_owned(), DataType::Int, cells)
}

} // verus!
