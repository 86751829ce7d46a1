//! Points in time.
use vstd::prelude::*;

verus! {

/// A point in time in UTC: seconds since the Unix epoch and the nanoseconds past them. A leap
/// second is the last second of its minute with a second or more of nanoseconds.
#[derive(Debug, Clone, Copy, PartialEq, Eq, Structural)]
pub struct Timestamp {
    pub secs: i64,
    pub nanos: u32,
}

/// Seconds in a day.
pub const DAY: i64 = 86_400;

/// Nanoseconds in a second.
pub const SECOND: u32 = 1_000_000_000;

/// What `chrono::DateTime::parse_from_rfc3339` makes of a text: seconds since the epoch and
/// nanoseconds, or nothing where it rejects the text.
pub uninterp spec fn rfc3339_instant(s: Seq<char>) -> Option<(i64, u32)>;

/// What `chrono::DateTime::<Utc>::to_rfc3339` writes for seconds since the epoch and nanoseconds.
pub uninterp spec fn rfc3339_text(secs: i64, nanos: u32) -> Seq<char>;

impl Timestamp {
    /// Whether the point lies in the calendar that timestamps are written in (years -262143 to
    /// 262142), with nanoseconds below a second except in a leap second.
    pub open spec fn wf(self) -> bool {
        &&& -8_334_601_228_800 <= self.secs <= 8_210_266_876_799
        &&& self.nanos < 2_000_000_000
        &&& self.nanos >= SECOND ==> self.secs as int % 60 == 59
    }

    /// Whether the point lies in the calendar.
    pub fn is_wf(self) -> (r: bool)
        ensures
            r == self.wf(),
    {
        if self.secs < -8_334_601_228_800 || self.secs > 8_210_266_876_799 {
            return false;
        }
        let shifted: u64 = (self.secs + 8_467_200_000_000) as u64;
        proof {
            assert(8_467_200_000_000int == 141_120_000_000 * 60);
            assert(shifted as int % 60 == self.secs as int % 60);
        }
        self.nanos < SECOND || (self.nanos < 2_000_000_000 && shifted % 60 == 59)
    }

    /// Whether the point lies in the years 0 to 9999 and in no leap second.
    pub open spec fn four_digit_year(self) -> bool {
        &&& -62_167_219_200 <= self.secs <= 253_402_300_799
        &&& self.nanos < SECOND
    }

    /// Whether this point comes after `other`.
    pub open spec fn after(self, other: Timestamp) -> bool {
        self.secs > other.secs || (self.secs == other.secs && self.nanos > other.nanos)
    }

    /// Whether this point comes after `other`.
    pub fn is_after(self, other: Timestamp) -> (r: bool)
        ensures
            r == self.after(other),
    {
        self.secs > other.secs || (self.secs == other.secs && self.nanos > other.nanos)
    }

    /// Which day of the week it is, counted from Monday. The epoch was a Thursday.
    pub open spec fn weekday_spec(self) -> int {
        (self.secs as int / 86_400 + 3) % 7
    }

    /// The hour of the day.
    pub open spec fn hour_spec(self) -> int {
        (self.secs as int % 86_400) / 3_600
    }

    /// The day of the week, counted from Monday.
    pub fn weekday(self) -> (r: usize)
        requires
            self.wf(),
        ensures
            r == self.weekday_spec(),
            r < 7,
    {
        // Counted from a day far enough back that nothing is negative.
        let shifted: u64 = (self.secs + 8_467_200_000_000) as u64;
        let days: u64 = shifted / 86_400;
        proof {
            assert(8_467_200_000_000int == 98_000_000 * 86_400);
            assert(shifted as int / 86_400 == self.secs as int / 86_400 + 98_000_000);
            assert(98_000_000int % 7 == 0);
        }
        ((days + 3) % 7) as usize
    }

    /// The hour of the day.
    pub fn hour(self) -> (r: usize)
        requires
            self.wf(),
        ensures
            r == self.hour_spec(),
            r < 24,
    {
        let shifted: u64 = (self.secs + 8_467_200_000_000) as u64;
        proof {
            assert(8_467_200_000_000int == 98_000_000 * 86_400);
            assert(shifted as int % 86_400 == self.secs as int % 86_400);
        }
        ((shifted % 86_400) / 3_600) as usize
    }

    /// Seconds from `earlier` to this point, rounded down. A leap second that lies between the two
    /// within their times of day counts.
    pub open spec fn seconds_since(self, earlier: Timestamp) -> int {
        let a = self.secs as int % 86_400;
        let b = earlier.secs as int % 86_400;
        let leap: int = if a > b && earlier.nanos >= SECOND {
            1
        } else if a < b && self.nanos >= SECOND {
            -1
        } else {
            0
        };
        self.secs - earlier.secs + leap + (self.nanos - earlier.nanos) / SECOND as int
    }

    /// Whole days from `earlier` to this point; 0 when `earlier` lies ahead.
    pub open spec fn days_since_spec(self, earlier: Timestamp) -> int {
        let s = self.seconds_since(earlier);
        if s <= 0 {
            0
        } else {
            s / 86_400
        }
    }

    fn second_of_day(self) -> (r: i64)
        requires
            self.wf(),
        ensures
            r == self.secs as int % 86_400,
    {
        let shifted: u64 = (self.secs + 8_467_200_000_000) as u64;
        proof {
            assert(8_467_200_000_000int == 98_000_000 * 86_400);
            assert(shifted as int % 86_400 == self.secs as int % 86_400);
        }
        (shifted % 86_400) as i64
    }

    /// Whole days from `earlier` to this point; 0 when `earlier` lies ahead.
    pub fn days_since(self, earlier: Timestamp) -> (r: u64)
        requires
            self.wf(),
            earlier.wf(),
        ensures
            r == self.days_since_spec(earlier),
    {
        let a: i64 = self.second_of_day();
        let b: i64 = earlier.second_of_day();
        let mut s: i64 = self.secs - earlier.secs;
        if a > b && earlier.nanos >= SECOND {
            s += 1;
        } else if a < b && self.nanos >= SECOND {
            s -= 1;
        }
        if self.nanos >= earlier.nanos {
            let whole: u32 = (self.nanos - earlier.nanos) / SECOND;
            s += whole as i64;
        } else if earlier.nanos - self.nanos <= SECOND {
            s -= 1;
        } else {
            s -= 2;
        }
        if s <= 0 {
            0
        } else {
            (s as u64) / 86_400
        }
    }

    /// The point `days` days earlier.
    pub fn minus_days(self, days: u32) -> (r: Timestamp)
        requires
            self.wf(),
            self.nanos < SECOND,
        ensures
            r.secs == self.secs - days * 86_400,
            r.nanos == self.nanos,
    {
        Timestamp { secs: self.secs - (days as i64) * DAY, nanos: self.nanos }
    }

    /// Reads an RFC 3339 timestamp with `chrono::DateTime::parse_from_rfc3339`, as seconds and
    /// nanoseconds in UTC. The result is the named one; what is read lies in the calendar.
    #[verifier::external_body]
    fn parse_pair(s: &str) -> (r: Option<(i64, u32)>)
        ensures
            r == rfc3339_instant(s@),
            r matches Some(p) ==> (Timestamp { secs: p.0, nanos: p.1 }).wf(),
    {
        let parsed = chrono::DateTime::parse_from_rfc3339(s).ok()?;
        Some((parsed.timestamp(), parsed.timestamp_subsec_nanos()))
    }

    /// What a text stands for as an RFC 3339 timestamp.
    pub open spec fn parsed(s: Seq<char>) -> Option<Timestamp> {
        match rfc3339_instant(s) {
            Some(p) => Some(Timestamp { secs: p.0, nanos: p.1 }),
            None => None,
        }
    }

    /// Reads an RFC 3339 timestamp.
    pub fn parse(s: &str) -> (r: Option<Timestamp>)
        ensures
            r == Timestamp::parsed(s@),
            r matches Some(t) ==> t.wf(),
    {
        match Timestamp::parse_pair(s) {
            Some(p) => Some(Timestamp { secs: p.0, nanos: p.1 }),
            None => None,
        }
    }

    /// The RFC 3339 text of the point.
    pub open spec fn text(self) -> Seq<char> {
        rfc3339_text(self.secs, self.nanos)
    }

    /// Writes the point with `chrono::DateTime::<Utc>::to_rfc3339`. The result is the named one;
    /// within the years 0 to 9999, outside leap seconds, it reads back as the same point.
    #[verifier::external_body]
    pub(crate) fn to_rfc3339(self) -> (r: String)
        requires
            self.wf(),
        ensures
            r@ == rfc3339_text(self.secs, self.nanos),
            self.four_digit_year() ==> rfc3339_instant(r@) == Some((self.secs, self.nanos)),
    {
        chrono::DateTime::from_timestamp(self.secs, self.nanos).unwrap().to_rfc3339()
    }

    /// The present, from `chrono::Utc::now`. Every clock reading is at or after the epoch and in
    /// no leap second; nothing more is promised of it.
    #[verifier::external_body]
    fn now_pair() -> (r: (i64, u32))
        ensures
            0 <= r.0 <= 8_210_266_876_799,
            r.1 < SECOND,
    {
        let now = chrono::Utc::now();
        (now.timestamp(), now.timestamp_subsec_nanos())
    }

    /// The present.
    pub fn now() -> (r: Timestamp)
        ensures
            r.wf(),
            r.secs >= 0,
            r.nanos < SECOND,
    {
        let p = Timestamp::now_pair();
        Timestamp { secs: p.0, nanos: p.1 }
    }
}

/// Of two different points one comes after the other, and never both.
pub proof fn law_time_is_totally_ordered(a: Timestamp, b: Timestamp)
    ensures
        a == b || a.after(b) || b.after(a),
        !(a.after(b) && b.after(a)),
{
}

/// Days are counted whole: outside leap seconds, so many days have passed since an earlier point
/// that one more would lead beyond this one, and none since a point that lies ahead.
pub proof fn law_days_are_counted_whole(now: Timestamp, then: Timestamp)
    requires
        now.nanos < SECOND,
        then.nanos < SECOND,
    ensures
        ({
            let passed = (now.secs - then.secs) * 1_000_000_000 + (now.nanos - then.nanos);
            let days = now.days_since_spec(then);
            &&& passed >= 0 ==> days * 86_400_000_000_000 <= passed < (days + 1)
                * 86_400_000_000_000
            &&& passed < 0 ==> days == 0
        }),
{
    let s = now.seconds_since(then);
    let n = now.nanos - then.nanos;
    assert(n / SECOND as int == if n < 0 {
        -1int
    } else {
        0int
    });
    let passed = (now.secs - then.secs) * 1_000_000_000 + n;
    if passed >= 0 {
        assert(s >= 0);
        let days = now.days_since_spec(then);
        assert(days == s / 86_400);
        assert(days * 86_400 <= s < (days + 1) * 86_400);
    }
}

/// The later a point lies, the fewer days have passed since it.
pub proof fn law_later_points_lie_fewer_days_back(now: Timestamp, a: Timestamp, b: Timestamp)
    requires
        now.nanos < SECOND,
        a.nanos < SECOND,
        b.nanos < SECOND,
        !a.after(b),
    ensures
        now.days_since_spec(b) <= now.days_since_spec(a),
{
    law_days_are_counted_whole(now, a);
    law_days_are_counted_whole(now, b);
}

/// The hours and the days of the week go round as those of the calendar do: an hour later is the
/// next hour, a day later the same hour of the next day of the week, and the epoch began at
/// midnight on a Thursday.
pub proof fn law_hours_and_weekdays_go_round(t: Timestamp, later: Timestamp)
    requires
        0 <= t.secs,
        t.secs <= 8_000_000_000_000,
    ensures
        later.secs == t.secs + 3_600 ==> later.hour_spec() == (t.hour_spec() + 1) % 24,
        later.secs == t.secs + 86_400 ==> later.hour_spec() == t.hour_spec()
            && later.weekday_spec() == (t.weekday_spec() + 1) % 7,
        t.secs < 3_600 ==> t.hour_spec() == 0,
        t.secs < 86_400 ==> t.weekday_spec() == 3,
{
    let s = t.secs as int;
    if later.secs == t.secs + 3_600 {
        assert((s + 3_600) % 86_400 == if s % 86_400 + 3_600 < 86_400 {
            s % 86_400 + 3_600
        } else {
            s % 86_400 + 3_600 - 86_400
        });
        assert((s % 86_400 + 3_600) / 3_600 == (s % 86_400) / 3_600 + 1);
    }
    if later.secs == t.secs + 86_400 {
        assert((s + 86_400) / 86_400 == s / 86_400 + 1);
        assert((s + 86_400) % 86_400 == s % 86_400);
    }
}

/// Of two points that lie in no leap second, the one with more nanoseconds behind it comes after
/// the other.
pub proof fn law_later_points_come_after(a: Timestamp, b: Timestamp)
    requires
        a.nanos < SECOND,
        b.nanos < SECOND,
    ensures
        a.after(b) <==> a.secs * 1_000_000_000 + a.nanos > b.secs * 1_000_000_000 + b.nanos,
{
}

/// A time is read exactly where the text is one, and is written as the point that it is.
pub proof fn law_times_are_read_and_written(s: Seq<char>, t: Timestamp)
    ensures
        Timestamp::parsed(s) is Some <==> rfc3339_instant(s) is Some,
        rfc3339_instant(s) matches Some(p) ==> Timestamp::parsed(s)->0.secs == p.0
            && Timestamp::parsed(s)->0.nanos == p.1,
        t.text() == rfc3339_text(t.secs, t.nanos),
{
}

} // verus!
