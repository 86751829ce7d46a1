//! Patterns in the times at which memories are made.
use crate::rows::{read_time, stored_time};
use crate::sql::{
    row_views, text_at, text_column, value_views, with1, Row, SqlValue, SqlView, Statement,
    StatementView,
};
use crate::text::{concat, concat3, join_texts, joined, opt_text, texts};
use crate::time::Timestamp;
use vstd::prelude::*;

verus! {

/// The times of the memories with a text in them, the newest first.
pub const PATTERN_TIMES: &'static str = "SELECT created_at FROM engrams WHERE content LIKE ?1 ORDER BY created_at DESC LIMIT 200";

/// The query for the times of the memories with a text in them.
pub fn pattern_times(query: &str) -> (r: Statement)
    ensures
        r@ == (StatementView {
            sql: PATTERN_TIMES@,
            params: seq![SqlView::Text("%"@ + query@ + "%"@)],
        }),
{
    with1(PATTERN_TIMES, SqlValue::Text(concat3("%", query, "%")))
}

/// The times in rows of one text each; a row that holds anything else is passed over, and a text
/// that is no time counts as now.
pub open spec fn times_in(rows: Seq<Seq<SqlView>>, now: Timestamp) -> Seq<Timestamp>
    decreases rows.len(),
{
    if rows.len() == 0 {
        Seq::empty()
    } else {
        let before = times_in(rows.drop_last(), now);
        match text_column(rows.last(), 0) {
            Some(s) => before.push(stored_time(s, now)),
            None => before,
        }
    }
}

/// The times in rows of one text each.
pub fn rows_to_times(rows: &Vec<Row>, now: Timestamp) -> (r: Vec<Timestamp>)
    ensures
        r@ == times_in(row_views(rows@), now),
        now.wf() ==> in_calendar(r@),
{
    let mut out: Vec<Timestamp> = Vec::new();
    let ghost all = row_views(rows@);
    let mut i: usize = 0;
    while i < rows.len()
        invariant
            i <= rows@.len(),
            all == row_views(rows@),
            out@ == times_in(all.take(i as int), now),
            now.wf() ==> in_calendar(out@),
        decreases rows@.len() - i,
    {
        proof {
            assert(all[i as int] == value_views(rows@[i as int]@));
            assert(all.take(i + 1).drop_last() =~= all.take(i as int));
            assert(all.take(i + 1).last() == all[i as int]);
        }
        if let Some(s) = text_at(&rows[i], 0) {
            out.push(read_time(s.as_str(), now));
        }
        i += 1;
    }
    proof {
        assert(all.take(all.len() as int) =~= all);
    }
    out
}

/// Whether all times lie in the calendar.
pub open spec fn in_calendar(times: Seq<Timestamp>) -> bool {
    forall|i: int| 0 <= i < times.len() ==> (#[trigger] times[i]).wf()
}

/// The part of the day: morning, afternoon, evening or night.
pub open spec fn period_of(hour: int) -> int {
    if 6 <= hour <= 11 {
        0
    } else if 12 <= hour <= 17 {
        1
    } else if 18 <= hour <= 23 {
        2
    } else {
        3
    }
}

/// What a time is counted under.
#[derive(Debug, Clone, Copy, PartialEq, Eq, Structural)]
pub enum Grouping {
    /// The day of the week, from Monday on.
    Weekday,
    /// The part of the day.
    Period,
}

impl Grouping {
    /// How many groups there are.
    pub open spec fn size(self) -> nat {
        match self {
            Grouping::Weekday => 7,
            Grouping::Period => 4,
        }
    }

    /// The group that a time belongs to.
    pub open spec fn group(self, t: Timestamp) -> int {
        match self {
            Grouping::Weekday => t.weekday_spec(),
            Grouping::Period => period_of(t.hour_spec()),
        }
    }

    /// How many times belong to a group.
    pub open spec fn count(self, times: Seq<Timestamp>, g: int) -> nat
        decreases times.len(),
    {
        if times.len() == 0 {
            0
        } else if self.group(times.last()) == g {
            self.count(times.drop_last(), g) + 1
        } else {
            self.count(times.drop_last(), g)
        }
    }

    /// Whether a group holds the most times, and more than every group behind it.
    pub open spec fn peaks(self, times: Seq<Timestamp>, g: int) -> bool {
        &&& 0 <= g < self.size()
        &&& forall|k: int|
            0 <= k < self.size() ==> #[trigger] self.count(times, k) <= self.count(times, g)
        &&& forall|k: int|
            g < k < self.size() ==> #[trigger] self.count(times, k) < self.count(times, g)
    }

    /// The last of the groups that hold the most times.
    pub open spec fn peak_of(self, times: Seq<Timestamp>) -> int {
        choose|g: int| self.peaks(times, g)
    }

    /// Whether a number of times is a pattern: at least three, and at least 1.8 times what an even
    /// spread would give.
    pub open spec fn pattern(self, count: nat, total: nat) -> bool {
        count >= 3 && 5 * (self.size() * count) >= 9 * total
    }

    fn groups(self) -> (r: usize)
        ensures
            r == self.size(),
    {
        match self {
            Grouping::Weekday => 7,
            Grouping::Period => 4,
        }
    }

    fn group_of(self, t: Timestamp) -> (r: usize)
        requires
            t.wf(),
        ensures
            r == self.group(t),
            r < self.size(),
    {
        match self {
            Grouping::Weekday => t.weekday(),
            Grouping::Period => {
                let hour: usize = t.hour();
                if 6 <= hour && hour <= 11 {
                    0
                } else if 12 <= hour && hour <= 17 {
                    1
                } else if 18 <= hour && hour <= 23 {
                    2
                } else {
                    3
                }
            },
        }
    }

    fn tally(self, times: &Vec<Timestamp>, g: usize) -> (r: usize)
        requires
            in_calendar(times@),
        ensures
            r == self.count(times@, g as int),
            r <= times@.len(),
    {
        let mut n: usize = 0;
        let mut i: usize = 0;
        while i < times.len()
            invariant
                i <= times@.len(),
                in_calendar(times@),
                n <= i,
                n == self.count(times@.take(i as int), g as int),
            decreases times@.len() - i,
        {
            proof {
                assert(times@.take(i + 1).drop_last() =~= times@.take(i as int));
            }
            if self.group_of(times[i]) == g {
                n += 1;
            }
            i += 1;
        }
        proof {
            assert(times@.take(times@.len() as int) =~= times@);
        }
        n
    }

    /// The last of the groups that hold the most times, and how many it holds.
    pub fn peak(self, times: &Vec<Timestamp>) -> (r: (usize, usize))
        requires
            in_calendar(times@),
        ensures
            self.peaks(times@, r.0 as int),
            r.0 == self.peak_of(times@),
            r.1 == self.count(times@, r.0 as int),
            r.1 <= times@.len(),
    {
        let size = self.groups();
        let mut best: usize = 0;
        let mut most: usize = self.tally(times, 0);
        let mut g: usize = 1;
        while g < size
            invariant
                1 <= g <= size,
                in_calendar(times@),
                size == self.size(),
                best < g,
                most == self.count(times@, best as int),
                most <= times@.len(),
                forall|k: int| 0 <= k < g ==> #[trigger] self.count(times@, k) <= most,
                forall|k: int| best < k < g ==> #[trigger] self.count(times@, k) < most,
            decreases size - g,
        {
            let n = self.tally(times, g);
            if n >= most {
                best = g;
                most = n;
            }
            g += 1;
        }
        proof {
            assert(self.peaks(times@, best as int));
            law_peak_is_unique(self, times@, best as int, self.peak_of(times@));
        }
        (best, most)
    }
}

/// The names of the days of the week.
pub open spec fn day_name(d: int) -> Seq<char> {
    if d == 0 {
        "Monday"@
    } else if d == 1 {
        "Tuesday"@
    } else if d == 2 {
        "Wednesday"@
    } else if d == 3 {
        "Thursday"@
    } else if d == 4 {
        "Friday"@
    } else if d == 5 {
        "Saturday"@
    } else {
        "Sunday"@
    }
}

fn day_text(d: usize) -> (r: String)
    ensures
        r@ == day_name(d as int),
{
    let s = if d == 0 {
        "Monday"
    } else if d == 1 {
        "Tuesday"
    } else if d == 2 {
        "Wednesday"
    } else if d == 3 {
        "Thursday"
    } else if d == 4 {
        "Friday"
    } else if d == 5 {
        "Saturday"
    } else {
        "Sunday"
    };
    s.to_string()
}

/// The names of the parts of the day.
pub open spec fn period_name(p: int) -> Seq<char> {
    if p == 0 {
        "morning"@
    } else if p == 1 {
        "afternoon"@
    } else if p == 2 {
        "evening"@
    } else {
        "night"@
    }
}

fn period_text(p: usize) -> (r: String)
    ensures
        r@ == period_name(p as int),
{
    let s = if p == 0 {
        "morning"
    } else if p == 1 {
        "afternoon"
    } else if p == 2 {
        "evening"
    } else {
        "night"
    };
    s.to_string()
}

/// A quotient.
#[derive(Debug, Clone, Copy, PartialEq, Eq, Structural)]
pub struct Ratio {
    pub over: u128,
    pub under: u128,
}

/// A pattern in the times at which memories are made.
#[derive(Debug)]
pub struct TemporalPattern {
    pub query: String,
    pub sample_size: usize,
    /// The day on which most are made, if that is a pattern.
    pub peak_day: Option<String>,
    /// How many times more are made on that day than an even spread would give.
    pub day_strength: Option<Ratio>,
    /// The part of the day in which most are made, if that is a pattern.
    pub peak_period: Option<String>,
    /// How many times more are made in that part than an even spread would give.
    pub period_strength: Option<Ratio>,
}

/// A pattern, as seen in contracts.
#[verifier::ext_equal]
pub struct PatternView {
    pub query: Seq<char>,
    pub sample_size: usize,
    pub peak_day: Option<Seq<char>>,
    pub day_strength: Option<Ratio>,
    pub peak_period: Option<Seq<char>>,
    pub period_strength: Option<Ratio>,
}

impl View for TemporalPattern {
    type V = PatternView;

    open spec fn view(&self) -> PatternView {
        PatternView {
            query: self.query@,
            sample_size: self.sample_size,
            peak_day: opt_text(self.peak_day),
            day_strength: self.day_strength,
            peak_period: opt_text(self.peak_period),
            period_strength: self.period_strength,
        }
    }
}

/// How many times more often a group comes than an even spread would give.
pub open spec fn strength(grouping: Grouping, count: nat, total: nat) -> Ratio {
    Ratio { over: (grouping.size() * count) as u128, under: total as u128 }
}

/// The pattern in times: none in fewer than asked for, and none where neither the peak of the days
/// nor that of the parts of the day is one.
pub open spec fn pattern_in(
    query: Seq<char>,
    times: Seq<Timestamp>,
    min: usize,
) -> Option<PatternView> {
    let total = times.len();
    let day = Grouping::Weekday.peak_of(times);
    let period = Grouping::Period.peak_of(times);
    let days = Grouping::Weekday.count(times, day);
    let periods = Grouping::Period.count(times, period);
    let by_day = Grouping::Weekday.pattern(days, total);
    let by_period = Grouping::Period.pattern(periods, total);
    if total < min || (!by_day && !by_period) {
        None
    } else {
        Some(
            PatternView {
                query,
                sample_size: total as usize,
                peak_day: if by_day {
                    Some(day_name(day))
                } else {
                    None
                },
                day_strength: if by_day {
                    Some(strength(Grouping::Weekday, days, total))
                } else {
                    None
                },
                peak_period: if by_period {
                    Some(period_name(period))
                } else {
                    None
                },
                period_strength: if by_period {
                    Some(strength(Grouping::Period, periods, total))
                } else {
                    None
                },
            },
        )
    }
}

/// What an optional pattern says.
pub open spec fn opt_pattern(p: Option<TemporalPattern>) -> Option<PatternView> {
    match p {
        Some(x) => Some(x@),
        None => None,
    }
}

fn is_pattern(grouping: Grouping, count: usize, total: usize) -> (r: bool)
    ensures
        r == grouping.pattern(count as nat, total as nat),
{
    let size: u128 = grouping.groups() as u128;
    let n: u128 = count as u128;
    assert(size * n <= 7 * 0x1_0000_0000_0000_0000) by (nonlinear_arith)
        requires
            size <= 7,
            n <= 0x1_0000_0000_0000_0000,
    ;
    count >= 3 && 5 * (size * n) >= 9 * (total as u128)
}

fn strength_of(grouping: Grouping, count: usize, total: usize) -> (r: Ratio)
    ensures
        r == strength(grouping, count as nat, total as nat),
{
    let size: u128 = grouping.groups() as u128;
    let n: u128 = count as u128;
    assert(size * n <= 7 * 0x1_0000_0000_0000_0000) by (nonlinear_arith)
        requires
            size <= 7,
            n <= 0x1_0000_0000_0000_0000,
    ;
    Ratio { over: size * n, under: total as u128 }
}

/// Finds a pattern in the times at which memories were made. There is none in fewer than asked
/// for, and none where no day and no part of the day stands out.
pub fn detect_temporal_patterns(query: &str, times: &Vec<Timestamp>, min_engrams: usize) -> (r:
    Option<TemporalPattern>)
    requires
        in_calendar(times@),
    ensures
        opt_pattern(r) == pattern_in(query@, times@, min_engrams),
{
    if times.len() < min_engrams {
        return None;
    }
    let (day, days) = Grouping::Weekday.peak(times);
    let (period, periods) = Grouping::Period.peak(times);
    let total = times.len();
    let by_day = is_pattern(Grouping::Weekday, days, total);
    let by_period = is_pattern(Grouping::Period, periods, total);
    if !by_day && !by_period {
        return None;
    }
    Some(TemporalPattern {
        query: query.to_string(),
        sample_size: total,
        peak_day: if by_day {
            Some(day_text(day))
        } else {
            None
        },
        day_strength: if by_day {
            Some(strength_of(Grouping::Weekday, days, total))
        } else {
            None
        },
        peak_period: if by_period {
            Some(period_text(period))
        } else {
            None
        },
        period_strength: if by_period {
            Some(strength_of(Grouping::Period, periods, total))
        } else {
            None
        },
    })
}

/// There is one peak only: what is found does not depend on how it is looked for.
pub proof fn law_peak_is_unique(grouping: Grouping, times: Seq<Timestamp>, a: int, b: int)
    requires
        grouping.peaks(times, a),
        grouping.peaks(times, b),
    ensures
        a == b,
{
    if a < b {
        assert(grouping.count(times, b) < grouping.count(times, a));
    }
    if b < a {
        assert(grouping.count(times, a) < grouping.count(times, b));
    }
}

/// Every time is counted under one group: the counts add up to the number of times.
pub proof fn law_every_time_is_counted_once(times: Seq<Timestamp>)
    ensures
        ({
            let c = |g: int| Grouping::Weekday.count(times, g);
            c(0) + c(1) + c(2) + c(3) + c(4) + c(5) + c(6) == times.len()
        }),
        ({
            let c = |g: int| Grouping::Period.count(times, g);
            c(0) + c(1) + c(2) + c(3) == times.len()
        }),
    decreases times.len(),
{
    if times.len() > 0 {
        law_every_time_is_counted_once(times.drop_last());
        let t = times.last();
        assert(0 <= t.weekday_spec() < 7);
    }
}

/// What a description is made of.
pub open spec fn remarks(p: PatternView, percent: Seq<char>) -> Seq<Seq<char>> {
    (if p.peak_day is Some && p.day_strength is Some {
        seq![
            "you tend to do this on "@ + p.peak_day->0 + "s ("@ + percent + "% of the time)"@,
        ]
    } else {
        Seq::empty()
    }) + (if p.peak_period is Some && p.period_strength is Some {
        seq!["usually in the "@ + p.peak_period->0]
    } else {
        Seq::empty()
    })
}

/// A pattern in words, given the share of the peak day in percent.
pub open spec fn description(p: PatternView, percent: Seq<char>) -> Seq<char> {
    if remarks(p, percent).len() == 0 {
        "No clear temporal pattern detected."@
    } else {
        "I've noticed "@ + joined(remarks(p, percent), ", "@)
    }
}

impl TemporalPattern {
    /// The pattern in words, given the share of the peak day in percent.
    pub fn describe(&self, percent: &str) -> (r: String)
        ensures
            r@ == description(self@, percent@),
    {
        let mut parts: Vec<String> = Vec::new();
        if let (Some(day), Some(_)) = (&self.peak_day, &self.day_strength) {
            let head = concat3("you tend to do this on ", day.as_str(), "s (");
            parts.push(concat3(head.as_str(), percent, "% of the time)"));
        }
        let ghost first = parts@;
        if let (Some(period), Some(_)) = (&self.peak_period, &self.period_strength) {
            parts.push(concat("usually in the ", period.as_str()));
        }
        proof {
            assert(texts(parts@) =~= remarks(self@, percent@));
            assert(texts(parts@).len() == parts@.len());
        }
        if parts.len() == 0 {
            return "No clear temporal pattern detected.".to_string();
        }
        let list = join_texts(&parts, ", ");
        concat("I've noticed ", list.as_str())
    }
}

/// A group is counted by the times that fall into it.
pub proof fn law_groups_are_counted(grouping: Grouping, times: Seq<Timestamp>, g: int)
    ensures
        grouping.count(times, g) == times.filter(|t: Timestamp| grouping.group(t) == g).len(),
    decreases times.len(),
{
    reveal(Seq::filter);
    if times.len() > 0 {
        law_groups_are_counted(grouping, times.drop_last(), g);
    }
}

/// The day begins with the night: from midnight to six it is night, to noon morning, to six in the
/// evening afternoon, and then evening.
pub proof fn law_periods_of_the_day(t: Timestamp)
    ensures
        period_name(Grouping::Period.group(t)) == {
            let hour = (t.secs as int % 86_400) / 3_600;
            if hour < 6 {
                "night"@
            } else if hour < 12 {
                "morning"@
            } else if hour < 18 {
                "afternoon"@
            } else {
                "evening"@
            }
        },
        0 <= Grouping::Period.group(t) < 4,
{
}

/// The days of the week follow each other, and the epoch began on a Thursday.
pub proof fn law_days_of_the_week(t: Timestamp)
    ensures
        day_name(Grouping::Weekday.group(t)) == {
            let day = (t.secs as int / 86_400) % 7;
            if day == 0 {
                "Thursday"@
            } else if day == 1 {
                "Friday"@
            } else if day == 2 {
                "Saturday"@
            } else if day == 3 {
                "Sunday"@
            } else if day == 4 {
                "Monday"@
            } else if day == 5 {
                "Tuesday"@
            } else {
                "Wednesday"@
            }
        },
        0 <= Grouping::Weekday.group(t) < 7,
{
}

/// A pattern is one of the day, of the time of day or of both, in enough times: a day or a time of
/// day is part of it exactly if three times or more fall into it and they are at least 1.8 times
/// as many as there would be if all were spread evenly; how many more they are is its strength.
/// `day` and `period` are where the most times fall; of equals it is the last.
pub proof fn law_patterns_are_marked(
    query: Seq<char>,
    times: Seq<Timestamp>,
    min: usize,
    day: int,
    period: int,
)
    requires
        0 <= day < 7,
        forall|k: int|
            0 <= k < 7 ==> #[trigger] Grouping::Weekday.count(times, k) <= Grouping::Weekday.count(
                times,
                day,
            ),
        forall|k: int|
            day < k < 7 ==> #[trigger] Grouping::Weekday.count(times, k) < Grouping::Weekday.count(
                times,
                day,
            ),
        0 <= period < 4,
        forall|k: int|
            0 <= k < 4 ==> #[trigger] Grouping::Period.count(times, k) <= Grouping::Period.count(
                times,
                period,
            ),
        forall|k: int|
            period < k < 4 ==> #[trigger] Grouping::Period.count(times, k)
                < Grouping::Period.count(times, period),
        times.len() <= usize::MAX,
    ensures
        ({
            let n = times.len();
            let d = times.filter(|t: Timestamp| Grouping::Weekday.group(t) == day).len();
            let p = times.filter(|t: Timestamp| Grouping::Period.group(t) == period).len();
            let by_day = d >= 3 && 10 * (7 * d) >= 18 * n;
            let by_period = p >= 3 && 10 * (4 * p) >= 18 * n;
            let found = pattern_in(query, times, min);
            &&& found is Some <==> n >= min && (by_day || by_period)
            &&& found is Some ==> {
                &&& found->0.query == query
                &&& found->0.sample_size == n
                &&& found->0.peak_day == if by_day {
                    Some(day_name(day))
                } else {
                    None
                }
                &&& found->0.peak_period == if by_period {
                    Some(period_name(period))
                } else {
                    None
                }
                &&& by_day ==> found->0.day_strength == Some(
                    Ratio { over: (7 * d) as u128, under: n as u128 },
                )
                &&& by_period ==> found->0.period_strength == Some(
                    Ratio { over: (4 * p) as u128, under: n as u128 },
                )
                &&& !by_day ==> found->0.day_strength is None
                &&& !by_period ==> found->0.period_strength is None
            }
        }),
{
    assert(Grouping::Weekday.peaks(times, day));
    assert(Grouping::Period.peaks(times, period));
    law_peak_is_unique(
        Grouping::Weekday,
        times,
        day,
        Grouping::Weekday.peak_of(times),
    );
    law_peak_is_unique(
        Grouping::Period,
        times,
        period,
        Grouping::Period.peak_of(times),
    );
    law_groups_are_counted(Grouping::Weekday, times, day);
    law_groups_are_counted(Grouping::Period, times, period);
}

/// A description names the day with how often, then the time of day, and says so where there is
/// neither.
pub proof fn law_patterns_are_described(p: PatternView, percent: Seq<char>)
    ensures
        ({
            let day = "you tend to do this on "@ + p.peak_day->0 + "s ("@ + percent
                + "% of the time)"@;
            let time = "usually in the "@ + p.peak_period->0;
            let by_day = p.peak_day is Some && p.day_strength is Some;
            let by_period = p.peak_period is Some && p.period_strength is Some;
            description(p, percent) == if by_day && by_period {
                "I've noticed "@ + (day + ", "@ + time)
            } else if by_day {
                "I've noticed "@ + day
            } else if by_period {
                "I've noticed "@ + time
            } else {
                "No clear temporal pattern detected."@
            }
        }),
{
    reveal_with_fuel(joined, 3);
    let day = "you tend to do this on "@ + p.peak_day->0 + "s ("@ + percent + "% of the time)"@;
    let time = "usually in the "@ + p.peak_period->0;
    let by_day = p.peak_day is Some && p.day_strength is Some;
    let by_period = p.peak_period is Some && p.period_strength is Some;
    if by_day && by_period {
        assert(remarks(p, percent) =~= seq![day, time]);
        assert(seq![day, time].drop_last() =~= seq![day]);
    } else if by_day {
        assert(remarks(p, percent) =~= seq![day]);
    } else if by_period {
        assert(remarks(p, percent) =~= seq![time]);
    }
}

/// The times of a pattern are those of all rows that hold one, in their order.
pub proof fn law_times_are_read_in_order(rows: Seq<Seq<SqlView>>, now: Timestamp)
    requires
        forall|i: int|
            0 <= i < rows.len() ==> (#[trigger] rows[i]).len() > 0 && rows[i][0] is Text,
    ensures
        times_in(rows, now).len() == rows.len(),
        forall|i: int|
            0 <= i < rows.len() ==> #[trigger] times_in(rows, now)[i] == match Timestamp::parsed(
                rows[i][0]->Text_0,
            ) {
                Some(t) => t,
                None => now,
            },
    decreases rows.len(),
{
    if rows.len() > 0 {
        let before = rows.drop_last();
        assert forall|i: int| 0 <= i < before.len() implies (#[trigger] before[i]).len() > 0
            && before[i][0] is Text by {
            assert(before[i] == rows[i]);
        }
        law_times_are_read_in_order(before, now);
        assert(rows.last() == rows[rows.len() - 1]);
        assert forall|i: int| 0 <= i < rows.len() implies #[trigger] times_in(rows, now)[i]
            == match Timestamp::parsed(rows[i][0]->Text_0) {
            Some(t) => t,
            None => now,
        } by {
            if i < before.len() {
                assert(before[i] == rows[i]);
                assert(times_in(rows, now)[i] == times_in(before, now)[i]);
            }
        }
    }
}

/// The times of a pattern are those of the latest two hundred memories that hold the text.
pub proof fn law_pattern_times_are_asked_for()
    ensures
        PATTERN_TIMES@
            == "SELECT created_at FROM engrams WHERE content LIKE ?1 ORDER BY created_at DESC LIMIT 200"@,
{
}

/// What is said of a pattern is said of its fields.
pub proof fn law_pattern_is_seen_as_it_is(x: TemporalPattern)
    ensures
        x@.query == x.query@,
        x@.sample_size == x.sample_size,
        x@.day_strength == x.day_strength,
        x@.period_strength == x.period_strength,
        (x@.peak_day is Some) == (x.peak_day is Some),
        x.peak_day is Some ==> x@.peak_day->0 == (x.peak_day->0)@,
        (x@.peak_period is Some) == (x.peak_period is Some),
        x.peak_period is Some ==> x@.peak_period->0 == (x.peak_period->0)@,
{
}

} // verus!
