//! Recurrence engine: computes the instances of a recurring event from its rule.
//! All functions are pure; nothing here touches contract storage.
use vstd::prelude::*;

use crate::dates::{
    days_before_month, days_before_year, days_from_ymd, days_since_unix_epoch, is_leap,
    lemma_days_before_month_bounds, lemma_days_before_year_bounds, lemma_days_before_year_mono,
    lemma_days_before_year_nonneg, lemma_month_len_bounds, lemma_month_of_days, lemma_months_make_year,
    lemma_year_len_bounds, lemma_year_of_days, month_len, month_of_days, year_len, year_of_days,
    ymd_days,
};
use crate::timestamp::{Timestamp, MAX_SECONDS};

verus! {

pub const DEFAULT_MAX_INSTANCES: u32 = 30;

pub const MAX_INSTANCES: u32 = 100;

/// Day of the week; `weekday_num` numbers them from Monday = 0 to Sunday = 6.
#[derive(Clone, Copy, Debug, PartialEq, Eq, Structural)]
pub enum DayOfWeek {
    Monday,
    Tuesday,
    Wednesday,
    Thursday,
    Friday,
    Saturday,
    Sunday,
}

impl DayOfWeek {
    pub open spec fn num(self) -> int {
        match self {
            DayOfWeek::Monday => 0,
            DayOfWeek::Tuesday => 1,
            DayOfWeek::Wednesday => 2,
            DayOfWeek::Thursday => 3,
            DayOfWeek::Friday => 4,
            DayOfWeek::Saturday => 5,
            DayOfWeek::Sunday => 6,
        }
    }

    pub fn weekday_num(&self) -> (n: u8)
        ensures
            n == self.num(),
    {
        match self {
            DayOfWeek::Monday => 0,
            DayOfWeek::Tuesday => 1,
            DayOfWeek::Wednesday => 2,
            DayOfWeek::Thursday => 3,
            DayOfWeek::Friday => 4,
            DayOfWeek::Saturday => 5,
            DayOfWeek::Sunday => 6,
        }
    }
}

#[derive(Clone, Copy, Debug, PartialEq, Eq, Structural)]
pub enum RecurrenceFrequency {
    Daily,
    Weekly,
    Monthly,
    Yearly,
}

/// When a recurring event stops.
#[derive(Clone, Copy, Debug, PartialEq, Eq, Structural)]
pub enum RecurrenceEnd {
    Never,
    AfterCount(u32),
    AtDate(Timestamp),
}

/// How an event repeats: every `interval` days, weeks, months or years
/// (an interval of 0 counts as 1), optionally on chosen weekdays.
#[derive(Clone, Debug)]
pub struct RecurrenceRule {
    pub frequency: RecurrenceFrequency,
    pub interval: u32,
    pub days_of_week: Option<Vec<DayOfWeek>>,
    pub end_condition: RecurrenceEnd,
}

/// One computed occurrence of a recurring event.
#[derive(Clone, Copy, Debug, PartialEq, Eq, Structural)]
pub struct ComputedInstance {
    pub occurrence_number: u32,
    pub start_time: Timestamp,
    pub end_time: Timestamp,
}

// ─────────────────────────── specification ───────────────────────────

pub open spec fn interval_of(rule: RecurrenceRule) -> int {
    if rule.interval == 0 { 1 } else { rule.interval as int }
}

pub open spec fn day_listed(days: Seq<DayOfWeek>, d: int) -> bool {
    exists|i: int| 0 <= i < days.len() && #[trigger] days[i].num() == d
}

/// The weekday numbers below `k` that occur in `days`, ascending and without repeats.
pub open spec fn listed_days_below(days: Seq<DayOfWeek>, k: int) -> Seq<u8>
    decreases k,
{
    if k <= 0 {
        seq![]
    } else if day_listed(days, k - 1) {
        listed_days_below(days, k - 1).push((k - 1) as u8)
    } else {
        listed_days_below(days, k - 1)
    }
}

pub open spec fn sorted_weekdays(days: Seq<DayOfWeek>) -> Seq<u8> {
    listed_days_below(days, 7)
}

/// The first entry of `s` at index `i` or later that exceeds `w`.
pub open spec fn first_above_from(s: Seq<u8>, w: int, i: int) -> Option<int>
    decreases s.len() - i,
{
    if i < 0 || i >= s.len() {
        None
    } else if s[i] > w {
        Some(s[i] as int)
    } else {
        first_above_from(s, w, i + 1)
    }
}

/// The weekday of a time in seconds, Monday 0 to Sunday 6 (1970-01-01 was a Thursday).
pub open spec fn weekday_of(secs: int) -> int {
    (secs / 86400 + 3) % 7
}

/// From `cur`, the next listed weekday later in the same week, or else the first
/// listed weekday of the week `iv` weeks on.
pub open spec fn week_step(cur: int, s: Seq<u8>, iv: int) -> int {
    let w = weekday_of(cur);
    match first_above_from(s, w, 0) {
        Some(d) => cur + (d - w) * 86400,
        None => cur + (7 * iv - (w - s[0])) * 86400,
    }
}

pub open spec fn week_walk(origin: int, s: Seq<u8>, iv: int, k: nat) -> int
    decreases k,
{
    if k == 0 {
        origin
    } else {
        week_step(week_walk(origin, s, iv, (k - 1) as nat), s, iv)
    }
}

/// The day of month (1-indexed), year and month (0-indexed) of a time in seconds.
pub open spec fn civil_of(origin: int) -> (int, int, int) {
    let (y, rem) = year_of_days(origin / 86400, 1970);
    let (m, dd) = month_of_days(rem, y, 0);
    (dd + 1, y, m)
}

/// Months counted from year 0 of occurrence `occ`.
pub open spec fn monthly_total(origin: int, iv: int, occ: int) -> int {
    let (day, y, m) = civil_of(origin);
    y * 12 + m + (occ - 1) * iv
}

/// The origin's day of month, clamped to the length of month `t` (months from year 0).
pub open spec fn clamped_day(origin: int, t: int) -> int {
    let day = civil_of(origin).0;
    let len = month_len(t / 12, t % 12);
    if day <= len { day } else { len }
}

pub open spec fn monthly_time(origin: int, iv: int, occ: int) -> int {
    let t = monthly_total(origin, iv, occ);
    ymd_days(t / 12, t % 12, clamped_day(origin, t)) * 86400 + (origin - (origin / 86400) * 86400)
}

/// A yearly rule keeps the origin's calendar month and day, every `iv` years: it is the
/// monthly rule stepping `12 * iv` months, so that Feb 29 falls on Feb 28 in a year that
/// is not a leap year.
pub open spec fn yearly_time(origin: int, iv: int, occ: int) -> int {
    monthly_time(origin, 12 * iv, occ)
}

/// Whether the weekly rule walks listed weekdays rather than whole weeks.
pub open spec fn walks_weekdays(rule: RecurrenceRule) -> bool {
    &&& rule.frequency == RecurrenceFrequency::Weekly
    &&& rule.days_of_week is Some
    &&& rule.days_of_week->0@.len() > 0
}

/// Start time, in seconds, of occurrence `occ` (1-indexed) of an event first starting at `origin`.
pub open spec fn occ_time(rule: RecurrenceRule, origin: int, occ: int) -> int {
    let iv = interval_of(rule);
    match rule.frequency {
        RecurrenceFrequency::Daily => origin + (occ - 1) * iv * 86400,
        RecurrenceFrequency::Weekly => {
            if walks_weekdays(rule) {
                week_walk(origin, sorted_weekdays(rule.days_of_week->0@), iv, (occ - 1) as nat)
            } else {
                origin + (occ - 1) * iv * 7 * 86400
            }
        },
        RecurrenceFrequency::Monthly => monthly_time(origin, iv, occ),
        RecurrenceFrequency::Yearly => yearly_time(origin, iv, occ),
    }
}

// ─────────────────────────── lemmas ───────────────────────────

proof fn lemma_listed_days_below(days: Seq<DayOfWeek>, k: int)
    requires
        0 <= k <= 7,
    ensures
        listed_days_below(days, k).len() <= k,
        forall|i: int|
            0 <= i < listed_days_below(days, k).len() ==> 0 <= #[trigger] listed_days_below(
                days,
                k,
            )[i] < k,
        forall|i: int, j: int|
            0 <= i < j < listed_days_below(days, k).len() ==> listed_days_below(days, k)[i]
                < listed_days_below(days, k)[j],
        forall|d: int|
            0 <= d < k && day_listed(days, d) ==> listed_days_below(days, k).contains(d as u8),
    decreases k,
{
    if k > 0 {
        lemma_listed_days_below(days, k - 1);
        let prev = listed_days_below(days, k - 1);
        if day_listed(days, k - 1) {
            let cur = prev.push((k - 1) as u8);
            assert forall|d: int| 0 <= d < k && day_listed(days, d) implies cur.contains(
                d as u8,
            ) by {
                if d < k - 1 {
                    let i = choose|i: int| 0 <= i < prev.len() && prev[i] == d as u8;
                    assert(cur[i] == d as u8);
                } else {
                    assert(cur[prev.len() as int] == d as u8);
                }
            }
        }
    }
}

/// The sorted weekdays of a nonempty list are nonempty and lie in 0..7.
proof fn lemma_sorted_weekdays(days: Seq<DayOfWeek>)
    requires
        days.len() > 0,
    ensures
        sorted_weekdays(days).len() > 0,
        forall|i: int|
            0 <= i < sorted_weekdays(days).len() ==> 0 <= #[trigger] sorted_weekdays(days)[i] < 7,
        forall|i: int| 0 <= i < sorted_weekdays(days).len() ==> sorted_weekdays(days)[0] <= #[trigger] sorted_weekdays(days)[i],
{
    lemma_listed_days_below(days, 7);
    let d = days[0].num();
    assert(day_listed(days, d));
    assert(sorted_weekdays(days).contains(d as u8));
    let s = sorted_weekdays(days);
    assert forall|i: int| 0 <= i < s.len() implies s[0] <= #[trigger] s[i] by {
        if i > 0 {
            assert(s[0] < s[i]);
        }
    }
}

proof fn lemma_first_above_from(s: Seq<u8>, w: int, i: int)
    requires
        0 <= i,
    ensures
        first_above_from(s, w, i) matches Some(d) ==> d > w && exists|j: int|
            i <= j < s.len() && s[j] == d,
        first_above_from(s, w, i) is None ==> forall|j: int| i <= j < s.len() ==> s[j] <= w,
    decreases s.len() - i,
{
    if i < s.len() && s[i] <= w {
        lemma_first_above_from(s, w, i + 1);
    }
}

/// Each weekly step moves at least one day forward.
proof fn lemma_week_step_grows(cur: int, s: Seq<u8>, iv: int)
    requires
        cur >= 0,
        iv >= 1,
        s.len() > 0,
        forall|i: int| 0 <= i < s.len() ==> 0 <= #[trigger] s[i] < 7,
    ensures
        week_step(cur, s, iv) >= cur + 86400,
        week_step(cur, s, iv) <= cur + 7 * iv * 86400,
{
    let w = weekday_of(cur);
    lemma_first_above_from(s, w, 0);
    match first_above_from(s, w, 0) {
        Some(d) => {
            let j = choose|j: int| 0 <= j < s.len() && s[j] == d;
            assert(s[j] < 7);
            assert((d - w) * 86400 >= 86400) by (nonlinear_arith)
                requires
                    d - w >= 1,
            ;
            assert((d - w) * 86400 <= 7 * iv * 86400) by (nonlinear_arith)
                requires
                    d - w <= 7,
                    iv >= 1,
            ;
        },
        None => {
            assert(s[0] <= w);
            assert((7 * iv - (w - s[0])) * 86400 >= 86400) by (nonlinear_arith)
                requires
                    7 * iv - (w - s[0]) >= 1,
            ;
            assert((7 * iv - (w - s[0])) * 86400 <= 7 * iv * 86400) by (nonlinear_arith)
                requires
                    w - s[0] >= 0,
            ;
        },
    }
}

proof fn lemma_week_walk_grows(origin: int, s: Seq<u8>, iv: int, k: nat)
    requires
        origin >= 0,
        iv >= 1,
        s.len() > 0,
        forall|i: int| 0 <= i < s.len() ==> 0 <= #[trigger] s[i] < 7,
    ensures
        week_walk(origin, s, iv, k) >= origin + k * 86400,
        week_walk(origin, s, iv, k + 1) >= week_walk(origin, s, iv, k) + 86400,
    decreases k,
{
    if k > 0 {
        lemma_week_walk_grows(origin, s, iv, (k - 1) as nat);
    }
    lemma_week_step_grows(week_walk(origin, s, iv, k), s, iv);
}

/// Days from the epoch to the first day of month `t` (counted in months from year 0).
pub open spec fn month_start(t: int) -> int {
    days_before_year(t / 12) + days_before_month(t / 12, t % 12)
}

proof fn lemma_month_start_step(t: int)
    requires
        t >= 1970 * 12,
    ensures
        month_start(t + 1) == month_start(t) + month_len(t / 12, t % 12),
{
    let y = t / 12;
    let m = t % 12;
    if m < 11 {
        assert((t + 1) / 12 == y && (t + 1) % 12 == m + 1);
    } else {
        assert((t + 1) / 12 == y + 1 && (t + 1) % 12 == 0);
        lemma_months_make_year(y);
        assert(days_before_month(y, 12) == days_before_month(y, 11) + month_len(y, 11));
        assert(days_before_year(y + 1) == days_before_year(y) + year_len(y));
    }
}

proof fn lemma_month_start_mono(a: int, b: int)
    requires
        1970 * 12 <= a < b,
    ensures
        month_start(a) + month_len(a / 12, a % 12) <= month_start(b),
    decreases b - a,
{
    lemma_month_start_step(a);
    if b > a + 1 {
        lemma_month_start_mono(a + 1, b);
        lemma_month_len_bounds((a + 1) / 12, (a + 1) % 12);
    }
}

/// Facts about the origin's calendar date.
proof fn lemma_civil_of(origin: int)
    requires
        origin >= 0,
    ensures
        civil_of(origin).1 >= 1970,
        0 <= civil_of(origin).2 < 12,
        1 <= civil_of(origin).0 <= month_len(civil_of(origin).1, civil_of(origin).2),
        0 <= year_of_days(origin / 86400, 1970).1 < year_len(year_of_days(origin / 86400, 1970).0),
        year_of_days(origin / 86400, 1970).0 >= 1970,
        year_of_days(origin / 86400, 1970).0 - 1970 <= origin / 86400,
{
    let od = origin / 86400;
    lemma_year_of_days(od, 1970);
    let (y, rem) = year_of_days(od, 1970);
    lemma_month_of_days(rem, y, 0);
    lemma_days_before_year_bounds(y);
    lemma_days_before_year_nonneg(y);
}

/// Successive occurrences of a rule stepping `iv` months are a day or more apart, and
/// the first is not before the epoch.
proof fn lemma_monthly_grows(origin: int, iv: int, occ: int)
    requires
        origin >= 0,
        iv >= 1,
        occ >= 1,
    ensures
        monthly_time(origin, iv, occ + 1) >= monthly_time(origin, iv, occ) + 86400,
        monthly_time(origin, iv, occ) >= 0,
{
    lemma_civil_of(origin);
    let (day, y, m) = civil_of(origin);
    let t1 = monthly_total(origin, iv, occ);
    let t2 = monthly_total(origin, iv, occ + 1);
    assert(t1 >= 1970 * 12) by (nonlinear_arith)
        requires
            t1 == y * 12 + m + (occ - 1) * iv,
            y >= 1970,
            m >= 0,
            occ >= 1,
            iv >= 1,
    ;
    assert(t2 == t1 + iv) by (nonlinear_arith)
        requires
            t1 == y * 12 + m + (occ - 1) * iv,
            t2 == y * 12 + m + (occ + 1 - 1) * iv,
    ;
    lemma_month_start_mono(t1, t2);
    let c1 = clamped_day(origin, t1);
    let c2 = clamped_day(origin, t2);
    assert(ymd_days(t1 / 12, t1 % 12, c1) == month_start(t1) + c1 - 1);
    assert(ymd_days(t2 / 12, t2 % 12, c2) == month_start(t2) + c2 - 1);
    lemma_days_before_year_nonneg(t1 / 12);
    lemma_days_before_month_bounds(t1 / 12, t1 % 12);
    let tod = origin - (origin / 86400) * 86400;
    let a = month_start(t1) + c1 - 1;
    let b = month_start(t2) + c2 - 1;
    assert(b >= a + 1);
    assert(b * 86400 + tod >= a * 86400 + tod + 86400 && a * 86400 >= 0) by (nonlinear_arith)
        requires
            b >= a + 1,
            a >= 0,
    ;
}

proof fn lemma_week_step_lands(cur: int, s: Seq<u8>, iv: int)
    requires
        cur >= 0,
        iv >= 1,
        s.len() > 0,
        forall|i: int| 0 <= i < s.len() ==> 0 <= #[trigger] s[i] < 7,
    ensures
        s.contains(weekday_of(week_step(cur, s, iv)) as u8),
        week_step(cur, s, iv) % 86400 == cur % 86400,
{
    let w = weekday_of(cur);
    let q = cur / 86400;
    lemma_first_above_from(s, w, 0);
    let (shift, d) = match first_above_from(s, w, 0) {
        Some(d) => (d - w, d),
        None => (7 * iv - (w - s[0]), s[0] as int),
    };
    if first_above_from(s, w, 0) is Some {
        let j = choose|j: int| 0 <= j < s.len() && s[j] == d;
        assert(s[j] == d as u8);
    } else {
        assert(s[0] == d as u8);
    }
    assert(0 <= d < 7);
    let next = cur + shift * 86400;
    assert(next / 86400 == q + shift && next % 86400 == cur % 86400) by (nonlinear_arith)
        requires
            next == cur + shift * 86400,
            q == cur / 86400,
            cur >= 0,
    ;
    assert((q + shift + 3) % 7 == d) by (nonlinear_arith)
        requires
            w == (q + 3) % 7,
            shift == d - w || shift == 7 * iv - (w - d),
            0 <= d < 7,
            q >= 0,
            iv >= 1,
    ;
}

/// From its second occurrence on, a weekly rule with listed weekdays falls on a listed
/// weekday, at the origin's time of day.
pub proof fn law_weekly_on_listed_days(rule: RecurrenceRule, origin: int, occ: int)
    requires
        walks_weekdays(rule),
        origin >= 0,
        occ >= 2,
    ensures
        ({
            let t = occ_time(rule, origin, occ);
            &&& exists|i: int| 0 <= i < rule.days_of_week->0@.len() && #[trigger] rule.days_of_week->0@[i].num()
                == weekday_of(t)
            &&& t % 86400 == origin % 86400
        }),
    decreases occ,
{
    let days = rule.days_of_week->0@;
    let s = sorted_weekdays(days);
    let iv = interval_of(rule);
    lemma_sorted_weekdays(days);
    lemma_listed_days_below(days, 7);
    let k = (occ - 1) as nat;
    let prev = week_walk(origin, s, iv, (k - 1) as nat);
    lemma_week_walk_grows(origin, s, iv, (k - 1) as nat);
    if occ > 2 {
        law_weekly_on_listed_days(rule, origin, occ - 1);
        assert(((occ - 1) - 1) as nat == (k - 1) as nat);
    } else {
        assert(prev == origin);
    }
    lemma_week_step_lands(prev, s, iv);
    assert(week_walk(origin, s, iv, k) == week_step(prev, s, iv));
    let t = week_walk(origin, s, iv, k);
    let x = weekday_of(t) as u8;
    let j = choose|j: int| 0 <= j < s.len() && s[j] == x;
    assert(0 <= s[j] < 7);
    assert(listed_days_below(days, 7).contains(x));
    lemma_listed_day_of_sorted(days, 7, x as int);
}

proof fn lemma_listed_day_of_sorted(days: Seq<DayOfWeek>, k: int, d: int)
    requires
        0 <= k <= 7,
        0 <= d < 256,
        listed_days_below(days, k).contains(d as u8),
    ensures
        day_listed(days, d),
    decreases k,
{
    if k > 0 {
        let prev = listed_days_below(days, k - 1);
        if day_listed(days, k - 1) {
            let cur = prev.push((k - 1) as u8);
            let i = choose|i: int| 0 <= i < cur.len() && cur[i] == d as u8;
            if i < prev.len() {
                assert(prev[i] == d as u8);
                lemma_listed_day_of_sorted(days, k - 1, d);
            } else {
                assert(d == k - 1);
            }
        } else {
            lemma_listed_day_of_sorted(days, k - 1, d);
        }
    }
}

/// Successive occurrences are at least a day apart, and the first is not before the epoch.
pub proof fn lemma_occ_time_grows(rule: RecurrenceRule, origin: int, occ: int)
    requires
        origin >= 0,
        occ >= 1,
    ensures
        occ_time(rule, origin, occ + 1) >= occ_time(rule, origin, occ) + 86400,
        occ_time(rule, origin, occ) >= 0,
{
    let iv = interval_of(rule);
    match rule.frequency {
        RecurrenceFrequency::Daily => {
            assert(origin + occ * iv * 86400 >= origin + (occ - 1) * iv * 86400 + 86400
                && (occ - 1) * iv * 86400 >= 0) by (nonlinear_arith)
                requires
                    iv >= 1,
                    occ >= 1,
            ;
        },
        RecurrenceFrequency::Weekly => {
            if walks_weekdays(rule) {
                let days = rule.days_of_week->0@;
                lemma_sorted_weekdays(days);
                lemma_week_walk_grows(origin, sorted_weekdays(days), iv, (occ - 1) as nat);
                assert(((occ + 1) - 1) as nat == ((occ - 1) as nat) + 1);
            } else {
                assert(origin + occ * iv * 7 * 86400 >= origin + (occ - 1) * iv * 7 * 86400
                    + 86400 && (occ - 1) * iv * 7 * 86400 >= 0) by (nonlinear_arith)
                    requires
                        iv >= 1,
                        occ >= 1,
                ;
            }
        },
        RecurrenceFrequency::Monthly => {
            lemma_monthly_grows(origin, iv, occ);
        },
        RecurrenceFrequency::Yearly => {
            lemma_monthly_grows(origin, 12 * iv, occ);
        },
    }
}

/// Occurrence start times strictly increase with the occurrence number, for every
/// frequency.
pub proof fn law_occurrences_strictly_increase(rule: RecurrenceRule, origin: int, k1: int, k2: int)
    requires
        origin >= 0,
        1 <= k1 < k2,
    ensures
        occ_time(rule, origin, k1) < occ_time(rule, origin, k2),
{
    lemma_occ_time_mono(rule, origin, k1, k2);
}

/// Occurrence 1 is the event itself: it starts at the origin, for every frequency.
pub proof fn law_first_occurrence_is_origin(rule: RecurrenceRule, origin: int)
    requires
        origin >= 0,
    ensures
        occ_time(rule, origin, 1) == origin,
{
    let iv = interval_of(rule);
    if rule.frequency == RecurrenceFrequency::Monthly || rule.frequency == RecurrenceFrequency::Yearly {
        let step = if rule.frequency == RecurrenceFrequency::Monthly { iv } else { 12 * iv };
        lemma_civil_of(origin);
        let od = origin / 86400;
        lemma_year_of_days(od, 1970);
        let (y, rem) = year_of_days(od, 1970);
        lemma_month_of_days(rem, y, 0);
        let (m, dd) = month_of_days(rem, y, 0);
        let t = monthly_total(origin, step, 1);
        assert(t == y * 12 + m);
        assert(t / 12 == y && t % 12 == m);
        assert(clamped_day(origin, t) == dd + 1);
        assert(ymd_days(y, m, dd + 1) == od);
        assert(monthly_time(origin, step, 1) == origin);
        assert(yearly_time(origin, iv, 1) == monthly_time(origin, 12 * iv, 1));
    } else if walks_weekdays(rule) {
        assert(week_walk(origin, sorted_weekdays(rule.days_of_week->0@), iv, 0) == origin);
    } else {
        assert((1 - 1) * iv * 86400 == 0 && (1 - 1) * iv * 7 * 86400 == 0) by (nonlinear_arith);
    }
}

/// An interval of 0 behaves exactly as an interval of 1, for every frequency.
pub proof fn law_interval_zero_is_one(rule: RecurrenceRule, origin: int, occ: int)
    ensures
        occ_time(RecurrenceRule { interval: 0, ..rule }, origin, occ) == occ_time(
            RecurrenceRule { interval: 1, ..rule },
            origin,
            occ,
        ),
{
    let r0 = RecurrenceRule { interval: 0, ..rule };
    let r1 = RecurrenceRule { interval: 1, ..rule };
    assert(interval_of(r0) == interval_of(r1));
    assert(walks_weekdays(r0) == walks_weekdays(r1));
}

/// Occurrence `occ` starts at least `occ - 1` days after the epoch.
pub proof fn lemma_occ_time_lower(rule: RecurrenceRule, origin: int, occ: int)
    requires
        origin >= 0,
        occ >= 1,
    ensures
        occ_time(rule, origin, occ) >= (occ - 1) * 86400,
    decreases occ,
{
    lemma_occ_time_grows(rule, origin, occ);
    if occ > 1 {
        lemma_occ_time_lower(rule, origin, occ - 1);
        lemma_occ_time_grows(rule, origin, occ - 1);
    }
}

/// Later occurrences start later.
pub proof fn lemma_occ_time_mono(rule: RecurrenceRule, origin: int, a: int, b: int)
    requires
        origin >= 0,
        1 <= a <= b,
    ensures
        occ_time(rule, origin, a) + (b - a) * 86400 <= occ_time(rule, origin, b),
    decreases b - a,
{
    if a < b {
        lemma_occ_time_mono(rule, origin, a, b - 1);
        lemma_occ_time_grows(rule, origin, b - 1);
    }
}


proof fn lemma_week_walk_mono(origin: int, s: Seq<u8>, iv: int, a: nat, b: nat)
    requires
        origin >= 0,
        iv >= 1,
        s.len() > 0,
        forall|i: int| 0 <= i < s.len() ==> 0 <= #[trigger] s[i] < 7,
        a <= b,
    ensures
        week_walk(origin, s, iv, a) <= week_walk(origin, s, iv, b),
    decreases b - a,
{
    if a < b {
        lemma_week_walk_mono(origin, s, iv, a, (b - 1) as nat);
        lemma_week_walk_grows(origin, s, iv, (b - 1) as nat);
    }
}

// ─────────────────────────── executable code ───────────────────────────

/// The weekday numbers of `days`, ascending and without repeats.
fn sorted_weekday_nums(days: &Vec<DayOfWeek>) -> (s: Vec<u8>)
    ensures
        s@ == sorted_weekdays(days@),
{
    let mut s: Vec<u8> = Vec::new();
    let mut d: u8 = 0;
    while d < 7
        invariant
            d <= 7,
            s@ == listed_days_below(days@, d as int),
        decreases 7 - d,
    {
        let mut i: usize = 0;
        let mut found = false;
        while i < days.len()
            invariant
                i <= days.len(),
                found == exists|j: int| 0 <= j < i && #[trigger] days@[j].num() == d,
            decreases days.len() - i,
        {
            if days[i].weekday_num() == d {
                found = true;
            }
            i += 1;
        }
        assert(found == day_listed(days@, d as int));
        if found {
            s.push(d);
        }
        d += 1;
    }
    s
}

/// One step of the weekly walk: the next listed weekday after `cur`.
fn next_listed_day(cur: i64, sorted: &Vec<u8>, week_span: i64, Ghost(iv): Ghost<int>) -> (next: i64)
    requires
        cur >= 0,
        iv >= 1,
        week_span == 7 * iv,
        sorted@.len() > 0,
        forall|i: int| 0 <= i < sorted@.len() ==> 0 <= #[trigger] sorted@[i] < 7,
        week_step(cur as int, sorted@, iv) <= i64::MAX,
    ensures
        next == week_step(cur as int, sorted@, iv),
{
    proof {
        lemma_week_step_grows(cur as int, sorted@, iv);
    }
    let current_weekday = (days_since_unix_epoch(cur) + 3) % 7;
    assert(current_weekday == weekday_of(cur as int));
    let mut i: usize = 0;
    while i < sorted.len()
        invariant
            i <= sorted@.len(),
            current_weekday == weekday_of(cur as int),
            week_step(cur as int, sorted@, iv) <= i64::MAX,
            cur >= 0,
            first_above_from(sorted@, current_weekday as int, 0) == first_above_from(
                sorted@,
                current_weekday as int,
                i as int,
            ),
        decreases sorted.len() - i,
    {
        let dow = sorted[i] as i64;
        if dow > current_weekday {
            assert(first_above_from(sorted@, current_weekday as int, i as int) == Some(dow as int));
            let diff = dow - current_weekday;
            assert(week_step(cur as int, sorted@, iv) == cur + diff * 86400);
            return cur + diff * 86400;
        }
        i += 1;
    }
    // Go to next interval's week, first matching day
    cur + (week_span - (current_weekday - sorted[0] as i64)) * 86400
}

/// Splits days since the epoch into (year, day of that year).
fn split_year(days: i64) -> (r: (i64, i64))
    requires
        0 <= days <= 1_000_000_000_000,
    ensures
        r.0 == year_of_days(days as int, 1970).0,
        r.1 == year_of_days(days as int, 1970).1,
{
    let mut remaining = days;
    let mut year: i64 = 1970;
    loop
        invariant
            0 <= remaining <= days,
            1970 <= year <= 1970 + (days - remaining),
            year_of_days(remaining as int, year as int) == year_of_days(days as int, 1970),
            days <= 1_000_000_000_000,
        ensures
            year_of_days(remaining as int, year as int) == year_of_days(days as int, 1970),
            remaining < year_len(year as int),
        decreases remaining,
    {
        let ylen: i64 = if is_leap(year) { 366 } else { 365 };
        if remaining < ylen {
            break;
        }
        remaining -= ylen;
        year += 1;
    }
    (year, remaining)
}

/// Splits a day of `year` into (month, day of that month), both 0-indexed.
fn split_month(day_of_year: i64, year: i64) -> (r: (usize, i64))
    requires
        0 <= day_of_year < year_len(year as int),
    ensures
        r.0 == month_of_days(day_of_year as int, year as int, 0).0,
        r.1 == month_of_days(day_of_year as int, year as int, 0).1,
        r.0 < 12,
{
    proof {
        lemma_month_of_days(day_of_year as int, year as int, 0);
    }
    let mut remaining = day_of_year;
    let mut month: usize = 0;
    while month < 12
        invariant
            month <= 12,
            0 <= remaining <= day_of_year,
            month_of_days(remaining as int, year as int, month as int) == month_of_days(
                day_of_year as int,
                year as int,
                0,
            ),
        ensures
            month_of_days(remaining as int, year as int, month as int) == month_of_days(
                day_of_year as int,
                year as int,
                0,
            ),
            month >= 12 || remaining < month_len(year as int, month as int),
        decreases 12 - month,
    {
        let mdays = month_length_of(year, month);
        if remaining < mdays {
            break;
        }
        remaining -= mdays;
        month += 1;
    }
    (month, remaining)
}

fn month_length_of(year: i64, month: usize) -> (n: i64)
    requires
        month < 12,
    ensures
        n == month_len(year as int, month as int),
{
    if month == 1 && is_leap(year) {
        29
    } else {
        let months_days: [i64; 12] = [31, 28, 31, 30, 31, 30, 31, 31, 30, 31, 30, 31];
        assert(months_days@ =~= seq![31i64, 28, 31, 30, 31, 30, 31, 31, 30, 31, 30, 31]);
        months_days[month]
    }
}

/// The start of occurrence `n` of a rule stepping `step` months from `origin_secs`.
fn months_on(origin_secs: i64, step: i64, n: i64) -> (r: i64)
    requires
        0 <= origin_secs <= MAX_SECONDS,
        n >= 1,
        step >= 1,
        monthly_time(origin_secs as int, step as int, n as int) <= i64::MAX,
    ensures
        r == monthly_time(origin_secs as int, step as int, n as int),
{
    let ghost goal = monthly_time(origin_secs as int, step as int, n as int);
    proof {
        lemma_monthly_grows(origin_secs as int, step as int, n as int);
    }
    let origin_days = days_since_unix_epoch(origin_secs);
    proof {
        lemma_civil_of(origin_secs as int);
    }
    let (year, remaining) = split_year(origin_days);
    let (month, dd) = split_month(remaining, year);
    let day_of_month = dd + 1;
    let ghost t = monthly_total(origin_secs as int, step as int, n as int);
    let ghost c = clamped_day(origin_secs as int, t);
    let ghost tod = origin_secs - (origin_secs / 86400) * 86400;
    proof {
        assert(t >= 1970 * 12) by (nonlinear_arith)
            requires
                t == year * 12 + month + (n - 1) * step,
                year >= 1970,
                n >= 1,
                step >= 1,
        ;
        lemma_days_before_year_bounds(t / 12);
        lemma_days_before_month_bounds(t / 12, t % 12);
        assert(goal == ymd_days(t / 12, t % 12, c) * 86400 + tod);
        assert(0 <= tod < 86400);
        assert(ymd_days(t / 12, t % 12, c) <= i64::MAX / 86400) by (nonlinear_arith)
            requires
                ymd_days(t / 12, t % 12, c) * 86400 + tod <= i64::MAX,
                tod >= 0,
        ;
        assert(t <= 12 * (t / 12) + 11);
        assert(t / 12 - 1970 <= 300_000_000_000) by (nonlinear_arith)
            requires
                365 * (t / 12 - 1970) <= days_before_year(t / 12),
                days_before_year(t / 12) <= ymd_days(t / 12, t % 12, c),
                ymd_days(t / 12, t % 12, c) <= i64::MAX / 86400,
        ;
        assert(0 <= (n - 1) * step) by (nonlinear_arith)
            requires
                n >= 1,
                step >= 1,
        ;
    }
    let total_months = (year * 12 + month as i64) + (n - 1) * step;
    let target_year = total_months / 12;
    let target_month = (total_months % 12) as usize;
    let days_in_target_month = month_length_of(target_year, target_month);
    let clamped_day = if day_of_month < days_in_target_month {
        day_of_month
    } else {
        days_in_target_month
    };
    let target_days = days_from_ymd(target_year, target_month, clamped_day);
    let time_of_day = origin_secs - days_since_unix_epoch(origin_secs) * 86400;
    target_days * 86400 + time_of_day
}

/// Compute the start time (Unix seconds) of occurrence number `occ` (1-indexed).
pub fn compute_occurrence_time(rule: &RecurrenceRule, origin_secs: i64, occ: u32) -> (r: Option<i64>)
    requires
        0 <= origin_secs <= MAX_SECONDS,
        occ >= 1,
        occ_time(*rule, origin_secs as int, occ as int) <= i64::MAX,
    ensures
        r == Some(occ_time(*rule, origin_secs as int, occ as int) as i64),
{
    let ghost goal = occ_time(*rule, origin_secs as int, occ as int);
    proof {
        lemma_occ_time_grows(*rule, origin_secs as int, occ as int);
    }
    let n = occ as i64;
    let interval: i64 = if rule.interval == 0 { 1 } else { rule.interval as i64 };
    assert(interval == interval_of(*rule));
    match rule.frequency {
        RecurrenceFrequency::Daily => {
            assert(0 <= (n - 1) * interval <= (n - 1) * interval * 86400 <= i64::MAX) by (nonlinear_arith)
                requires
                    n >= 1,
                    interval >= 1,
                    origin_secs >= 0,
                    origin_secs + (n - 1) * interval * 86400 <= i64::MAX,
            ;
            Some(origin_secs + (n - 1) * interval * 86400)
        },
        RecurrenceFrequency::Weekly => {
            match &rule.days_of_week {
                Some(days) if days.len() > 0 => {
                    let ghost iv = interval as int;
                    if n == 1 {
                        return Some(origin_secs);
                    }
                    let sorted_days = sorted_weekday_nums(days);
                    proof {
                        lemma_sorted_weekdays(days@);
                    }
                    if sorted_days.len() == 0 {
                        return None;
                    }
                    let week_span = 7 * interval;
                    assert(walks_weekdays(*rule));
                    assert(goal == week_walk(origin_secs as int, sorted_days@, iv, (n - 1) as nat));
                    let mut current_occ: i64 = 1;
                    let mut current_secs = origin_secs;
                    loop
                        invariant
                            1 <= current_occ < n,
                            walks_weekdays(*rule),
                            days@ == rule.days_of_week->0@,
                            sorted_days@ == sorted_weekdays(days@),
                            sorted_days@.len() > 0,
                            forall|i: int|
                                0 <= i < sorted_days@.len() ==> 0 <= #[trigger] sorted_days@[i]
                                    < 7,
                            iv >= 1,
                            iv == interval,
                            week_span == 7 * iv,
                            origin_secs >= 0,
                            current_secs == week_walk(
                                origin_secs as int,
                                sorted_days@,
                                iv,
                                (current_occ - 1) as nat,
                            ),
                            goal == week_walk(
                                origin_secs as int,
                                sorted_days@,
                                iv,
                                (n - 1) as nat,
                            ),
                            goal <= i64::MAX,
                            goal == occ_time(*rule, origin_secs as int, occ as int),
                            n == occ,
                        decreases n - current_occ,
                    {
                        proof {
                            lemma_week_walk_mono(
                                origin_secs as int,
                                sorted_days@,
                                iv,
                                current_occ as nat,
                                (n - 1) as nat,
                            );
                            lemma_week_walk_grows(
                                origin_secs as int,
                                sorted_days@,
                                iv,
                                (current_occ - 1) as nat,
                            );
                            assert(current_occ as nat == ((current_occ - 1) as nat) + 1);
                        }
                        current_secs = next_listed_day(current_secs, &sorted_days, week_span, Ghost(iv));
                        current_occ += 1;
                        assert(current_secs == week_walk(
                            origin_secs as int,
                            sorted_days@,
                            iv,
                            (current_occ - 1) as nat,
                        ));
                        if current_occ == n {
                            assert(current_secs == goal);
                            return Some(current_secs);
                        }
                    }
                },
                _ => {
                    // No specific days: interval weeks from origin
                    assert(0 <= (n - 1) * interval <= (n - 1) * interval * 7 <= (n - 1) * interval * 7 * 86400 <= i64::MAX) by (nonlinear_arith)
                        requires
                            n >= 1,
                            interval >= 1,
                            origin_secs >= 0,
                            origin_secs + (n - 1) * interval * 7 * 86400 <= i64::MAX,
                    ;
                    Some(origin_secs + (n - 1) * interval * 7 * 86400)
                },
            }
        },
        RecurrenceFrequency::Monthly => {
            // Every `interval` months on the same day of month as origin
            Some(months_on(origin_secs, interval, n))
        },
        RecurrenceFrequency::Yearly => {
            // The same month and day every `interval` years (Feb 29 -> Feb 28)
            proof {
                assert(12 * interval <= 12 * 4294967295);
            }
            Some(months_on(origin_secs, 12 * interval, n))
        },
    }
}

// ─────────────────────────── instance listing ───────────────────────────

/// The parameters of an instance listing, as mathematical integers.
pub struct Scan {
    pub rule: RecurrenceRule,
    /// Start of the first occurrence, in seconds.
    pub origin: int,
    /// Length of every occurrence, in seconds (end minus start).
    pub dur: int,
    /// Occurrences ending before this second are skipped.
    pub from: int,
    /// Occurrences starting after this second end the listing.
    pub to: int,
    /// Number of instances after which the scan stops: one more than the listing
    /// returns, to tell whether more follow.
    pub limit: int,
}

/// Number of instances a listing returns at most: the requested count (30 when none is
/// given) capped at 100.
pub open spec fn effective_limit(limit: Option<u32>) -> int {
    let l = match limit {
        Some(l) => l as int,
        None => DEFAULT_MAX_INSTANCES as int,
    };
    if l < MAX_INSTANCES { l } else { MAX_INSTANCES as int }
}

pub open spec fn scan_of(
    rule: RecurrenceRule,
    event_start: Timestamp,
    event_end: Timestamp,
    from: Option<Timestamp>,
    to: Option<Timestamp>,
    limit: Option<u32>,
) -> Scan {
    Scan {
        rule,
        origin: event_start.secs(),
        dur: event_end.secs() - event_start.secs(),
        from: match from {
            Some(f) => f.secs(),
            None => event_start.secs(),
        },
        to: match to {
            Some(t) => t.secs(),
            None => i64::MAX as int,
        },
        limit: effective_limit(limit) + 1,
    }
}

impl Scan {
    pub open spec fn start(self, o: int) -> int {
        occ_time(self.rule, self.origin, o)
    }

    pub open spec fn end(self, o: int) -> int {
        self.start(o) + self.dur
    }

    /// The rule's count allows occurrence `o`.
    pub open spec fn count_ok(self, o: int) -> bool {
        match self.rule.end_condition {
            RecurrenceEnd::AfterCount(n) => o <= n,
            _ => true,
        }
    }

    /// Occurrence `o` overlaps the window's start.
    pub open spec fn in_window(self, o: int) -> bool {
        self.end(o) >= self.from
    }

    /// Occurrence `o` ends the listing: it starts after the rule's end date, or it
    /// overlaps the window but starts after its end.
    pub open spec fn stops(self, o: int) -> bool {
        ||| (self.rule.end_condition matches RecurrenceEnd::AtDate(d) && self.start(o) > d.secs())
        ||| (self.in_window(o) && self.start(o) > self.to)
    }

    pub open spec fn no_stop_upto(self, k: int) -> bool {
        forall|o: int| 1 <= o <= k ==> !#[trigger] self.stops(o)
    }

    /// Occurrence `o` belongs in the listing (before the cut-off at `limit`).
    pub open spec fn listed(self, o: int) -> bool {
        &&& 1 <= o
        &&& self.count_ok(o)
        &&& self.no_stop_upto(o)
        &&& self.in_window(o)
    }

    /// How many of the occurrences 1..=k belong in the listing.
    pub open spec fn rank(self, k: int) -> int
        decreases k,
    {
        if k <= 0 {
            0
        } else if self.listed(k) {
            self.rank(k - 1) + 1
        } else {
            self.rank(k - 1)
        }
    }

    /// Occurrence `o` is computed while listing.
    pub open spec fn visited(self, o: int) -> bool {
        &&& 1 <= o
        &&& self.count_ok(o)
        &&& self.no_stop_upto(o - 1)
        &&& self.rank(o - 1) < self.limit
    }

    /// The occurrence times met while listing fit the machine's integers.
    pub open spec fn fits(self) -> bool {
        &&& forall|o: int|
            #[trigger] self.visited(o) ==> self.start(o) <= i64::MAX && self.end(o) <= i64::MAX
        &&& forall|o: int|
            #[trigger] self.visited(o) && self.listed(o) ==> self.start(o) <= MAX_SECONDS
                && 0 <= self.end(o) <= MAX_SECONDS
    }

    /// Occurrences from this number on all overlap the window's start.
    pub open spec fn window_bound(self) -> int {
        if self.from - self.dur <= 0 {
            1
        } else {
            (self.from - self.dur) / 86400 + 2
        }
    }
}

pub open spec fn max_possible_occ_spec(end_condition: RecurrenceEnd) -> int {
    match end_condition {
        RecurrenceEnd::Never => u64::MAX as int,
        RecurrenceEnd::AfterCount(n) => n as int,
        RecurrenceEnd::AtDate(_) => 36500,
    }
}

/// A quick estimate of whether occurrences follow the one numbered `next_occ - 1`, from
/// the end condition alone: exact for a count, while a rule without end always has more
/// and an end date only caps the occurrence number (the range and the occurrence times
/// are not looked at).
pub open spec fn more_after(rule: RecurrenceRule, next_occ: int, to_secs: int) -> bool {
    match rule.end_condition {
        RecurrenceEnd::AfterCount(n) => next_occ <= n,
        RecurrenceEnd::AtDate(d) => if d.secs() < to_secs {
            next_occ <= max_possible_occ_spec(rule.end_condition)
        } else {
            true
        },
        RecurrenceEnd::Never => true,
    }
}

proof fn lemma_rank_step(s: Scan, k: int)
    requires
        k >= 1,
    ensures
        s.rank(k) == s.rank(k - 1) + if s.listed(k) { 1int } else { 0int },
{
}

proof fn lemma_rank_mono(s: Scan, a: int, b: int)
    requires
        a <= b,
    ensures
        s.rank(a) <= s.rank(b),
    decreases b - a,
{
    if a < b {
        lemma_rank_mono(s, a, b - 1);
        if b >= 1 {
            lemma_rank_step(s, b);
        }
    }
}

proof fn lemma_rank_nonneg(s: Scan, k: int)
    ensures
        s.rank(k) >= 0,
    decreases k,
{
    if k > 0 {
        lemma_rank_nonneg(s, k - 1);
    }
}

/// Occurrences past the window bound overlap the window's start.
proof fn lemma_window_bound(s: Scan, o: int)
    requires
        s.origin >= 0,
        o >= s.window_bound(),
        o >= 1,
    ensures
        s.in_window(o),
{
    lemma_occ_time_lower(s.rule, s.origin, o);
    if s.from - s.dur > 0 {
        let q = (s.from - s.dur) / 86400;
        assert((o - 1) * 86400 >= (q + 1) * 86400) by (nonlinear_arith)
            requires
                o - 1 >= q + 1,
        ;
    }
}

/// `inst` is occurrence `o` of the listing, with its start and end times.
pub open spec fn instance_of(s: Scan, o: int, inst: ComputedInstance) -> bool {
    &&& inst.occurrence_number == o
    &&& inst.start_time.nanos == s.start(o) * 1_000_000_000
    &&& inst.end_time.nanos == s.end(o) * 1_000_000_000
}

/// `insts` lists, in order, the first `s.limit - 1` occurrences that belong in the
/// listing (all of them when there are fewer), and `has_more` tells whether another
/// occurrence belonging in the listing follows them.
pub open spec fn is_listing(s: Scan, insts: Seq<ComputedInstance>, has_more: bool) -> bool {
    &&& insts.len() <= s.limit - 1
    &&& forall|i: int|
        0 <= i < insts.len() ==> {
            let o = #[trigger] insts[i].occurrence_number as int;
            &&& s.listed(o)
            &&& s.rank(o - 1) == i
            &&& instance_of(s, o, insts[i])
        }
    &&& forall|o: int| #[trigger] s.listed(o) && s.rank(o - 1) < s.limit - 1 ==> s.rank(o - 1) < insts.len()
    &&& has_more == exists|o: int| #[trigger] s.listed(o) && s.rank(o - 1) == s.limit - 1
}

proof fn lemma_rank_at_most(s: Scan, k: int)
    requires
        k >= 0,
    ensures
        s.rank(k) <= k,
    decreases k,
{
    if k > 0 {
        lemma_rank_at_most(s, k - 1);
    }
}

/// Every listed instance lasts as long as the event.
pub proof fn law_instances_keep_duration(s: Scan, insts: Seq<ComputedInstance>, has_more: bool, i: int)
    requires
        is_listing(s, insts, has_more),
        0 <= i < insts.len(),
    ensures
        insts[i].end_time.nanos - insts[i].start_time.nanos == s.dur * 1_000_000_000,
{
    let o = insts[i].occurrence_number as int;
    assert(instance_of(s, o, insts[i]));
    assert(s.end(o) * 1_000_000_000 - s.start(o) * 1_000_000_000 == s.dur * 1_000_000_000)
        by (nonlinear_arith)
        requires
            s.end(o) == s.start(o) + s.dur,
    ;
}

/// Instances are listed in time order: a later instance has a higher occurrence number
/// and starts at least a day later.
pub proof fn law_instances_in_time_order(
    s: Scan,
    insts: Seq<ComputedInstance>,
    has_more: bool,
    i: int,
    j: int,
)
    requires
        is_listing(s, insts, has_more),
        s.origin >= 0,
        0 <= i < j < insts.len(),
    ensures
        insts[i].occurrence_number < insts[j].occurrence_number,
        insts[i].start_time.nanos + 86_400_000_000_000 <= insts[j].start_time.nanos,
{
    let oi = insts[i].occurrence_number as int;
    let oj = insts[j].occurrence_number as int;
    assert(s.listed(oi) && s.rank(oi - 1) == i && instance_of(s, oi, insts[i]));
    assert(s.listed(oj) && s.rank(oj - 1) == j && instance_of(s, oj, insts[j]));
    if oj <= oi {
        lemma_rank_mono(s, oj - 1, oi - 1);
    }
    lemma_occ_time_mono(s.rule, s.origin, oi, oj);
    let (a, b) = (s.start(oi), s.start(oj));
    assert(a * 1_000_000_000 + 86_400_000_000_000 <= b * 1_000_000_000) by (nonlinear_arith)
        requires
            a + 86400 <= b,
    ;
}

/// A rule that stops after `n` occurrences lists at most `n` instances.
pub proof fn law_count_caps_instances(s: Scan, insts: Seq<ComputedInstance>, has_more: bool)
    requires
        is_listing(s, insts, has_more),
    ensures
        s.rule.end_condition matches RecurrenceEnd::AfterCount(n) ==> insts.len() <= n,
{
    if insts.len() > 0 {
        let k = insts.len() - 1;
        let o = insts[k].occurrence_number as int;
        assert(s.listed(o) && s.rank(o - 1) == k);
        lemma_rank_at_most(s, o - 1);
    }
}

impl RecurrenceRule {
    pub fn max_possible_occ(&self) -> (n: u64)
        ensures
            n == max_possible_occ_spec(self.end_condition),
    {
        match &self.end_condition {
            RecurrenceEnd::Never => u64::MAX,
            RecurrenceEnd::AfterCount(n) => *n as u64,
            // Approximate: at most 100 years of daily events
            RecurrenceEnd::AtDate(_) => 36500,
        }
    }
}

/// Estimates from the end condition alone whether occurrences follow occurrence
/// `next_occ - 1` (see `more_after`); `compute_instances` instead looks for the next
/// occurrence itself.
pub fn has_more_instances(
    rule: &RecurrenceRule,
    next_occ: u32,
    _last_start: i64,
    _last_end: i64,
    to_secs: i64,
) -> (b: bool)
    ensures
        b == more_after(*rule, next_occ as int, to_secs as int),
{
    if let RecurrenceEnd::AfterCount(n) = &rule.end_condition {
        return next_occ <= *n;
    }
    // For Never or AtDate, there's always more instances (we just didn't compute them)
    // But check if end condition AtDate is before our range start
    if let RecurrenceEnd::AtDate(d) = &rule.end_condition {
        if (d.seconds() as i64) < to_secs {
            // end date is within range, so there may be more
            return next_occ as u64 <= rule.max_possible_occ();
        }
        return true;
    }
    true
}

/// Compute future instances of a recurring event within the given time range.
/// Returns up to `limit` instances (default 30, max 100).
/// Sets `has_more` if additional instances exist beyond the limit.
pub fn compute_instances(
    rule: &RecurrenceRule,
    event_start: Timestamp,
    event_end: Timestamp,
    from: Option<Timestamp>,
    to: Option<Timestamp>,
    limit: Option<u32>,
) -> (r: (Vec<ComputedInstance>, bool))
    requires
        scan_of(*rule, event_start, event_end, from, to, limit).fits(),
    ensures
        is_listing(scan_of(*rule, event_start, event_end, from, to, limit), r.0@, r.1),
{
    let ghost s = scan_of(*rule, event_start, event_end, from, to, limit);
    let cap = match limit {
        Some(l) => l,
        None => DEFAULT_MAX_INSTANCES,
    };
    let lim = if cap < MAX_INSTANCES { cap } else { MAX_INSTANCES };
    // One instance more than asked for is looked for, to tell whether more follow.
    let cap = lim + 1;
    let from_secs = match from {
        Some(f) => f.seconds(),
        None => event_start.seconds(),
    } as i64;
    let to_secs = match to {
        Some(t) => t.seconds() as i64,
        None => i64::MAX,
    };
    let duration = event_end.seconds() as i64 - event_start.seconds() as i64;
    let origin_secs = event_start.seconds() as i64;
    assert(s.from == from_secs && s.to == to_secs && s.dur == duration && s.origin == origin_secs);
    assert(s.limit == cap as int);
    let ghost wb = s.window_bound();
    assert(wb <= 430_000) by {
        assert(s.from - s.dur <= 2 * (MAX_SECONDS as int));
    }

    let mut instances: Vec<ComputedInstance> = Vec::new();
    let mut occ: u32 = 0;

    loop
        invariant_except_break
            0 <= occ <= wb + s.limit,
            s.no_stop_upto(occ as int),
            s.rank(occ as int) == instances@.len() < s.limit,
            occ >= wb - 1 ==> s.rank(occ as int) >= occ - wb + 1,
        invariant
            s == scan_of(*rule, event_start, event_end, from, to, limit),
            s.fits(),
            wb == s.window_bound(),
            wb <= 430_000,
            1 <= s.limit <= 101,
            s.limit == cap as int,
            cap == lim + 1,
            s.from == from_secs,
            s.to == to_secs,
            s.dur == duration,
            s.origin == origin_secs,
            0 <= origin_secs <= MAX_SECONDS,
            -(MAX_SECONDS as int) <= duration <= MAX_SECONDS,
            forall|i: int|
                0 <= i < instances@.len() ==> {
                    let o = #[trigger] instances@[i].occurrence_number as int;
                    &&& s.listed(o)
                    &&& s.rank(o - 1) == i
                    &&& instance_of(s, o, instances@[i])
                },
        ensures
            instances@.len() < s.limit,
            forall|o: int| #[trigger] s.listed(o) ==> s.rank(o - 1) < instances@.len(),
        decreases wb + s.limit - occ,
    {
        occ += 1;
        let ghost o = occ as int;
        proof {
            lemma_rank_step(s, o);
            lemma_rank_nonneg(s, o - 1);
        }
        if let RecurrenceEnd::AfterCount(max_count) = rule.end_condition {
            if occ > max_count {
                proof {
                    assert forall|x: int| #[trigger] s.listed(x) implies s.rank(x - 1) < instances@.len() by {
                        lemma_rank_step(s, x);
                        lemma_rank_mono(s, x, o - 1);
                    }
                }
                break;
            }
        }
        assert(s.visited(o));
        let occ_start = match compute_occurrence_time(rule, origin_secs, occ) {
            Some(t) => t,
            None => continue,
        };
        proof {
            lemma_occ_time_grows(*rule, origin_secs as int, o);
        }
        let occ_end = occ_start + duration;

        // Check end condition by date
        if let RecurrenceEnd::AtDate(end_date) = rule.end_condition {
            if occ_start > end_date.seconds() as i64 {
                proof {
                    assert(s.stops(o));
                    assert forall|x: int| #[trigger] s.listed(x) implies s.rank(x - 1) < instances@.len() by {
                        if x >= o {
                            assert(!s.no_stop_upto(x));
                        }
                        lemma_rank_step(s, x);
                        lemma_rank_mono(s, x, o - 1);
                    }
                }
                break;
            }
        }
        // Skip if entirely before the range
        if occ_end < from_secs {
            proof {
                assert(!s.stops(o));
                assert(!s.listed(o));
                if o >= wb {
                    lemma_window_bound(s, o);
                }
            }
            continue;
        }
        // Stop if past the range
        if occ_start > to_secs {
            proof {
                assert(s.stops(o));
                assert forall|x: int| #[trigger] s.listed(x) implies s.rank(x - 1) < instances@.len() by {
                    if x >= o {
                        assert(!s.no_stop_upto(x));
                    }
                    lemma_rank_step(s, x);
                    lemma_rank_mono(s, x, o - 1);
                }
            }
            break;
        }
        assert(!s.stops(o));
        assert(s.listed(o));
        let inst = ComputedInstance {
            occurrence_number: occ,
            start_time: Timestamp::from_seconds(occ_start as u64),
            end_time: Timestamp::from_seconds(occ_end as u64),
        };
        instances.push(inst);
        proof {
            assert(instances@[instances@.len() - 1] == inst);
        }
        if instances.len() >= cap as usize {
            // The extra instance shows that more follow.
            let ghost full = instances@;
            let extra = instances.pop();
            proof {
                let x = full[lim as int].occurrence_number as int;
                assert(s.listed(x) && s.rank(x - 1) == lim);
                assert(instances@ =~= full.drop_last());
                assert forall|i: int| 0 <= i < instances@.len() implies ({
                    let o = #[trigger] instances@[i].occurrence_number as int;
                    &&& s.listed(o)
                    &&& s.rank(o - 1) == i
                    &&& instance_of(s, o, instances@[i])
                }) by {
                    assert(instances@[i] == full[i]);
                }
            }
            return (instances, true);
        }
    }
    proof {
        assert forall|o: int| #[trigger] s.listed(o) && s.rank(o - 1) == s.limit - 1 implies false by {
            assert(s.rank(o - 1) < instances@.len());
        }
    }
    (instances, false)
}
} // verus!
