//! The wall clock and the calendar, as read through `std::time` and `chrono`.
use vstd::prelude::*;

verus! {

/// A reading of the system clock: how far it is from the Unix epoch, in whole
/// seconds and nanoseconds, and on which side.
pub struct ClockReading {
    pub before_epoch: bool,
    pub secs: u64,
    pub nanos: u32,
}

/// Reads the system clock with `std::time::SystemTime::now` and measures it from the
/// Unix epoch with `duration_since`: the duration it returns, or the one its error
/// carries when the clock reads a time before the epoch. The contract claims only
/// that the nanoseconds are below one second, as `Duration::subsec_nanos` documents;
/// nothing is promised of the value: it is the time.
#[verifier::external_body]
pub(crate) fn read_system_clock() -> (r: ClockReading)
    ensures
        r.nanos < 1_000_000_000,
{
    match std::time::SystemTime::now().duration_since(std::time::UNIX_EPOCH) {
        Ok(d) => ClockReading { before_epoch: false, secs: d.as_secs(), nanos: d.subsec_nanos() },
        Err(e) => ClockReading {
            before_epoch: true,
            secs: e.duration().as_secs(),
            nanos: e.duration().subsec_nanos(),
        },
    }
}

/// The first second that `chrono` represents: 1 January of the year -262143, in
/// seconds since the Unix epoch.
pub open spec fn calendar_min() -> int {
    -8_334_601_315_200
}

/// The last second that `chrono` represents: 31 December of the year 262142,
/// 23:59:59, in seconds since the Unix epoch.
pub open spec fn calendar_max() -> int {
    8_210_266_876_799
}

/// The instant of a clock reading: whole seconds since the epoch, rounded down, and
/// the nanoseconds past them.
pub open spec fn instant_of(c: ClockReading) -> (int, int) {
    if !c.before_epoch {
        (c.secs as int, c.nanos as int)
    } else if c.nanos == 0 {
        (-(c.secs as int), 0)
    } else {
        (-(c.secs as int) - 1, 1_000_000_000 - c.nanos)
    }
}

/// The instant of `c`, when it lies in the calendar.
pub fn clock_instant(c: &ClockReading) -> (r: Option<(i64, u32)>)
    requires
        c.nanos < 1_000_000_000,
    ensures
        match r {
            None => !(calendar_min() <= instant_of(*c).0 <= calendar_max()),
            Some((s, n)) => {
                &&& (s as int, n as int) == instant_of(*c)
                &&& calendar_min() <= s <= calendar_max()
                &&& n < 1_000_000_000
            },
        },
{
    if !c.before_epoch {
        if c.secs > 8_210_266_876_799 {
            return None;
        }
        Some((c.secs as i64, c.nanos))
    } else if c.nanos == 0 {
        if c.secs > 8_334_601_315_200 {
            return None;
        }
        Some((0 - (c.secs as i64), 0))
    } else {
        if c.secs >= 8_334_601_315_200 {
            return None;
        }
        Some((0 - (c.secs as i64) - 1, 1_000_000_000 - c.nanos))
    }
}

/// The current instant, when the clock reads a time in the calendar.
pub fn now_instant() -> (r: Option<(i64, u32)>)
    ensures
        r matches Some((s, n)) ==> calendar_min() <= s <= calendar_max() && n < 1_000_000_000,
{
    let c = read_system_clock();
    clock_instant(&c)
}

/// What `chrono` writes in RFC 3339 for the instant of clock reading `c`, or `None`
/// when that instant lies outside the calendar.
pub open spec fn reading_text(c: ClockReading) -> Option<Seq<char>> {
    let (s, n) = instant_of(c);
    if calendar_min() <= s <= calendar_max() {
        Some(rfc3339_text(s as i64, n as u32))
    } else {
        None
    }
}

/// The instant of clock reading `c` in RFC 3339; see `reading_text`.
pub fn rfc3339_of(c: &ClockReading) -> (r: Option<String>)
    requires
        c.nanos < 1_000_000_000,
    ensures
        match r {
            None => reading_text(*c) is None,
            Some(t) => reading_text(*c) == Some(t@),
        },
{
    match clock_instant(c) {
        Some((s, n)) => Some(rfc3339_at(s, n)),
        None => None,
    }
}

/// The current time as `chrono` writes it in RFC 3339, when the clock reads a time in
/// the calendar.
pub fn now_rfc3339() -> (r: Option<String>)
    ensures
        r matches Some(t) ==> exists|s: i64, n: u32| #[trigger] rfc3339_text(s, n) == t@,
{
    let c = read_system_clock();
    let r = rfc3339_of(&c);
    proof {
        if r is Some {
            let (s, n) = instant_of(c);
            assert(rfc3339_text(s as i64, n as u32) == r->Some_0@);
        }
    }
    r
}

/// What `chrono`'s `to_rfc3339` writes for the UTC instant `secs` seconds and `nanos`
/// nanoseconds past the epoch.
pub uninterp spec fn rfc3339_text(secs: i64, nanos: u32) -> Seq<char>;

/// What `chrono` writes for the UTC instant `secs` seconds past the epoch with the
/// format `%Y-%m-%d`.
pub uninterp spec fn ymd_text(secs: i64) -> Seq<char>;

/// The UTC instant `secs` seconds and `nanos` nanoseconds past the epoch in RFC 3339,
/// by `chrono`'s `DateTime::from_timestamp` and `to_rfc3339`. The contract claims only
/// that the text depends on `secs` and `nanos` alone; the calendar is not restated.
#[verifier::external_body]
pub(crate) fn rfc3339_at(secs: i64, nanos: u32) -> (r: String)
    requires
        calendar_min() <= secs <= calendar_max(),
        nanos < 1_000_000_000,
    ensures
        r@ == rfc3339_text(secs, nanos),
{
    chrono::DateTime::from_timestamp(secs, nanos).unwrap().to_rfc3339()
}

/// The UTC date of the instant `secs` seconds past the epoch as `YYYY-MM-DD`, by
/// `chrono`'s `format("%Y-%m-%d")`. The contract claims only that the text depends on
/// `secs` alone.
#[verifier::external_body]
pub(crate) fn ymd_at(secs: i64) -> (r: String)
    requires
        calendar_min() <= secs <= calendar_max(),
    ensures
        r@ == ymd_text(secs),
{
    chrono::DateTime::from_timestamp(secs, 0).unwrap().format("%Y-%m-%d").to_string()
}

} // verus!
