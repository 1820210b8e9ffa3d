//! The contribution calendar: today's streak, the busiest days and the most
//! productive day of the week in the current month.

use vstd::prelude::*;

use crate::calendar::{
    chrono_parse_ymd, format_month_day, month0_of_text, month_day_text, parse_ymd, parsed_date,
    CalendarDate,
};
use crate::ranking::{is_first_max, item_of_rank, stable_order_desc};
use crate::stats::{fits_i64, sum_of, ContributionDay, DayPoint, DayPointView, PeakDay};
use crate::text::str_eq;

verus! {

// ----- Today's position and the streak -----

/// Whether day `i` is the first with the date `today`.
pub open spec fn is_first_with_date(days: Seq<ContributionDay>, today: Seq<char>, i: int) -> bool {
    &&& 0 <= i < days.len()
    &&& days[i].date@ == today
    &&& forall|j: int| 0 <= j < i ==> days[j].date@ != today
}

/// The day the streak counts back from: the first day dated `today`, else the
/// last day, and none when there are no days.
pub open spec fn today_position(days: Seq<ContributionDay>, today: Seq<char>) -> Option<int> {
    if exists|i: int| 0 <= i < days.len() && days[i].date@ == today {
        Some(choose|i: int| is_first_with_date(days, today, i))
    } else if days.len() == 0 {
        None
    } else {
        Some(days.len() - 1)
    }
}

/// The contribution counts of the days, in order.
pub open spec fn day_counts(days: Seq<ContributionDay>) -> Seq<i64> {
    days.map_values(|d: ContributionDay| d.count)
}

/// The number of days with contributions that end right before day `end`.
pub open spec fn positive_run(counts: Seq<i64>, end: int) -> nat
    decreases end,
{
    if end <= 0 || counts[end - 1] <= 0 {
        0
    } else {
        1 + positive_run(counts, end - 1)
    }
}

/// The streak of days with contributions up to day `start`; a day `start` without
/// contributions yet does not break it, a negative count does.
pub open spec fn streak_from(counts: Seq<i64>, start: int) -> nat {
    if counts[start] > 0 {
        positive_run(counts, start + 1)
    } else if counts[start] == 0 {
        positive_run(counts, start)
    } else {
        0
    }
}

/// The current streak: 0 without days, else the streak up to today's position.
pub open spec fn current_streak_spec(days: Seq<ContributionDay>, today: Seq<char>) -> int {
    match today_position(days, today) {
        Some(start) => streak_from(day_counts(days), start) as int,
        None => 0,
    }
}

/// One more day added to the weekday tallies.
proof fn lemma_weekday_step(days: Seq<ContributionDay>, k: int, month0: int, w: int)
    requires
        0 <= k < days.len(),
    ensures
        weekday_counts(days.take(k + 1), month0, w) == (if in_month(days[k], month0)
            && weekday_slot(days[k].weekday) == w {
            weekday_counts(days.take(k), month0, w).push(days[k].count as int)
        } else {
            weekday_counts(days.take(k), month0, w)
        }),
        weekday_total(days.take(k + 1), month0, w) == weekday_total(days.take(k), month0, w) + (
        if in_month(days[k], month0) && weekday_slot(days[k].weekday) == w {
            days[k].count as int
        } else {
            0
        }),
{
    assert(days.take(k + 1).drop_last() =~= days.take(k));
    assert(days.take(k + 1).last() == days[k]);
    let before = weekday_counts(days.take(k), month0, w);
    assert(before.push(days[k].count as int).drop_last() =~= before);
}

proof fn lemma_positive_run_bound(counts: Seq<i64>, end: int)
    ensures
        positive_run(counts, end) <= if end > 0 {
            end
        } else {
            0
        },
    decreases end,
{
    if end > 0 && counts[end - 1] > 0 {
        lemma_positive_run_bound(counts, end - 1);
    }
}

/// The position of the day dated `today`, else of the last day.
pub fn today_index(days: &Vec<ContributionDay>, today: &str) -> (index: Option<usize>)
    ensures
        index matches Some(k) ==> today_position(days@, today@) == Some(k as int) && k
            < days@.len(),
        index is None ==> today_position(days@, today@) is None,
{
    let mut k: usize = 0;
    while k < days.len()
        invariant
            k <= days@.len(),
            forall|j: int| 0 <= j < k ==> days@[j].date@ != today@,
        decreases days@.len() - k,
    {
        if str_eq(days[k].date.as_str(), today) {
            proof {
                assert(is_first_with_date(days@, today@, k as int));
                let c = choose|i: int| is_first_with_date(days@, today@, i);
                assert(c == k as int) by {
                    if c < k {
                    } else if c > k {
                        assert(days@[k as int].date@ == today@);
                    }
                }
            }
            return Some(k);
        }
        k = k + 1;
    }
    if days.len() == 0 {
        None
    } else {
        Some(days.len() - 1)
    }
}

/// The streak of days with contributions that ends at day `start`, counting back.
pub fn streak_back_from(days: &Vec<ContributionDay>, start: usize) -> (streak: i64)
    requires
        start < days@.len(),
        days@.len() <= i64::MAX,
    ensures
        streak == streak_from(day_counts(days@), start as int),
{
    let ghost counts = day_counts(days@);
    let n = days.len();
    let mut streak: i64 = 0;
    let mut idx: usize = start + 1;
    while idx > 0
        invariant
            idx <= start + 1,
            start < days@.len() <= i64::MAX,
            counts == day_counts(days@),
            idx == start + 1 ==> streak == 0,
            idx <= start ==> streak + positive_run(counts, idx as int) == streak_from(
                counts,
                start as int,
            ),
            0 <= streak <= start + 1 - idx,
        decreases idx,
    {
        let k = idx - 1;
        if days[k].count > 0 {
            streak = streak + 1;
        } else if k == start && days[k].count == 0 {
        } else {
            return streak;
        }
        idx = idx - 1;
    }
    streak
}

/// The current streak of days with contributions, counting back from today.
pub fn current_streak(days: &Vec<ContributionDay>, today: &str) -> (streak: i64)
    requires
        days@.len() <= i64::MAX,
    ensures
        streak == current_streak_spec(days@, today@),
{
    match today_index(days, today) {
        Some(start) => streak_back_from(days, start),
        None => 0,
    }
}

// ----- The busiest days -----

/// A date text as the card shows it (`Mon D`), or the text itself where chrono
/// does not read it as `YYYY-MM-DD`.
pub open spec fn short_date_text(text: Seq<char>) -> Seq<char> {
    match parsed_date(chrono_parse_ymd(text)) {
        Some(d) => month_day_text(d),
        None => text,
    }
}

/// The day of rank `t` among the days ordered by count, highest first, as the
/// card shows it.
pub open spec fn ranked_day(days: Seq<ContributionDay>, t: int) -> DayPointView {
    let i = item_of_rank(day_counts(days), t);
    DayPointView { date: short_date_text(days[i].date@), count: days[i].count }
}

/// The three days with the most contributions (earlier days first among equal
/// counts), or all days where there are fewer.
pub open spec fn top_activities_spec(days: Seq<ContributionDay>) -> Seq<DayPointView> {
    Seq::new(
        if days.len() < 3 {
            days.len()
        } else {
            3
        },
        |t: int| ranked_day(days, t),
    )
}

/// The day with the most contributions; without days, today with no contributions.
pub open spec fn peak_day_spec(days: Seq<ContributionDay>, today: Seq<char>) -> DayPointView {
    if days.len() > 0 {
        ranked_day(days, 0)
    } else {
        DayPointView { date: short_date_text(today), count: 0 }
    }
}

/// A date as the card shows it: `Mon D` where the text reads as `YYYY-MM-DD`,
/// else the text unchanged.
pub fn format_short_date(date_str: &str) -> (text: String)
    ensures
        text@ == short_date_text(date_str@),
{
    format_parsed_date(parse_ymd(date_str), date_str)
}

/// A date as the card shows it, given what chrono read of its text: `Mon D` for a
/// date, else the text unchanged.
pub fn format_parsed_date(parsed: Option<CalendarDate>, date_str: &str) -> (text: String)
    requires
        parsed matches Some(d) ==> d.is_valid(),
    ensures
        text@ == match parsed {
            Some(d) => month_day_text(d),
            None => date_str@,
        },
{
    match parsed {
        Some(d) => format_month_day(d),
        None => date_str.to_owned(),
    }
}

/// The peak day and the top three days of the calendar.
pub fn busiest_days(days: &Vec<ContributionDay>, today: &str) -> (busiest: (PeakDay, Vec<DayPoint>))
    ensures
        busiest.0@ == peak_day_spec(days@, today@),
        busiest.1@.map_values(|p: DayPoint| p@) == top_activities_spec(days@),
{
    let n = days.len();
    let mut counts: Vec<i64> = Vec::new();
    let mut k: usize = 0;
    while k < n
        invariant
            k <= n,
            n == days@.len(),
            counts@ == day_counts(days@).take(k as int),
        decreases n - k,
    {
        counts.push(days[k].count);
        k = k + 1;
    }
    assert(counts@ =~= day_counts(days@));
    let order = stable_order_desc(&counts);
    let limit: usize = if n < 3 {
        n
    } else {
        3
    };
    let mut top: Vec<DayPoint> = Vec::new();
    let mut t: usize = 0;
    while t < limit
        invariant
            t <= limit,
            limit <= n,
            limit == (if n < 3 {
                n
            } else {
                3
            }),
            n == days@.len(),
            counts@ == day_counts(days@),
            order@.len() == n,
            forall|r: int| 0 <= r < n ==> #[trigger] order@[r] == item_of_rank(counts@, r),
            top@.len() == t,
            forall|r: int| 0 <= r < t ==> #[trigger] top@[r]@ == ranked_day(days@, r),
        decreases limit - t,
    {
        proof {
            crate::ranking::lemma_rank_onto(counts@, t as int);
        }
        let i = order[t];
        let date = format_short_date(days[i].date.as_str());
        top.push(DayPoint { date, count: days[i].count });
        t = t + 1;
    }
    assert(top@.map_values(|p: DayPoint| p@) =~= top_activities_spec(days@));
    let peak = if n > 0 {
        proof {
            crate::ranking::lemma_rank_onto(counts@, 0);
        }
        let i = order[0];
        PeakDay { date: format_short_date(days[i].date.as_str()), count: days[i].count }
    } else {
        PeakDay { date: format_short_date(today), count: 0 }
    };
    (peak, top)
}

// ----- The most productive day of the week -----

/// The weekday slot (0..=6) of a weekday number, clamped into range.
pub open spec fn weekday_slot(weekday: i64) -> int {
    if weekday < 0 {
        0
    } else if weekday > 6 {
        6
    } else {
        weekday as int
    }
}

/// Whether a day's date reads as a date of month `month0` (0..=11).
pub open spec fn in_month(day: ContributionDay, month0: int) -> bool {
    month0_of_text(day.date@) == Some(month0)
}

/// The counts of the days of month `month0` that fall into weekday slot `w`, in order.
pub open spec fn weekday_counts(days: Seq<ContributionDay>, month0: int, w: int) -> Seq<int>
    decreases days.len(),
{
    if days.len() == 0 {
        Seq::empty()
    } else {
        let before = weekday_counts(days.drop_last(), month0, w);
        let d = days.last();
        if in_month(d, month0) && weekday_slot(d.weekday) == w {
            before.push(d.count as int)
        } else {
            before
        }
    }
}

/// The contributions of month `month0` on weekday slot `w`.
pub open spec fn weekday_total(days: Seq<ContributionDay>, month0: int, w: int) -> int {
    sum_of(weekday_counts(days, month0, w))
}

/// Whether the running contribution total of every weekday slot fits in an `i64`
/// while the days are added up in order.
pub open spec fn weekday_totals_fit(days: Seq<ContributionDay>, month0: int) -> bool {
    forall|w: int, k: int|
        0 <= w < 7 && 0 <= k <= days.len() ==> #[trigger] fits_i64(
            weekday_total(days.take(k), month0, w),
        )
}

/// The contributions of month `month0` per weekday slot, Sunday first.
pub open spec fn weekday_totals_spec(days: Seq<ContributionDay>, month0: int) -> Seq<i64> {
    Seq::new(7, |w: int| weekday_total(days, month0, w) as i64)
}

/// The weekday with the most contributions (the first among equal totals), or
/// `fallback` where no total reaches 0.
pub open spec fn best_weekday_spec(totals: Seq<i64>, fallback: int) -> int {
    if exists|w: int| 0 <= w < totals.len() && totals[w] >= 0 {
        choose|w: int| is_first_max(totals, w)
    } else {
        fallback
    }
}

/// The English name of a weekday counted from Sunday = 0.
pub open spec fn weekday_name(w: int) -> Seq<char> {
    if w == 0 {
        "Sunday"@
    } else if w == 1 {
        "Monday"@
    } else if w == 2 {
        "Tuesday"@
    } else if w == 3 {
        "Wednesday"@
    } else if w == 4 {
        "Thursday"@
    } else if w == 5 {
        "Friday"@
    } else {
        "Saturday"@
    }
}

/// The contributions of month `month0` (0..=11) per weekday, Sunday first;
/// `None` where a running total leaves the range of `i64`.
pub fn weekday_totals(days: &Vec<ContributionDay>, month0: i64) -> (totals: Option<Vec<i64>>)
    ensures
        totals is Some <==> weekday_totals_fit(days@, month0 as int),
        totals matches Some(t) ==> t@ == weekday_totals_spec(days@, month0 as int),
{
    let mut totals: Vec<i64> = Vec::new();
    let mut w: usize = 0;
    while w < 7
        invariant
            w <= 7,
            totals@.len() == w,
            forall|v: int| 0 <= v < w ==> totals@[v] == 0,
        decreases 7 - w,
    {
        totals.push(0);
        w = w + 1;
    }
    let mut k: usize = 0;
    assert forall|v: int| 0 <= v < 7 implies #[trigger] totals@[v] == weekday_total(
        days@.take(0),
        month0 as int,
        v,
    ) by {
        assert(days@.take(0) =~= Seq::<ContributionDay>::empty());
    }
    while k < days.len()
        invariant
            k <= days@.len(),
            totals@.len() == 7,
            forall|v: int|
                0 <= v < 7 ==> #[trigger] totals@[v] == weekday_total(
                    days@.take(k as int),
                    month0 as int,
                    v,
                ),
            forall|v: int, j: int|
                0 <= v < 7 && 0 <= j <= k ==> #[trigger] fits_i64(
                    weekday_total(days@.take(j), month0 as int, v),
                ),
        decreases days@.len() - k,
    {
        proof {
            assert forall|v: int| 0 <= v < 7 implies weekday_total(
                days@.take(k + 1),
                month0 as int,
                v,
            ) == weekday_total(days@.take(k as int), month0 as int, v) + (if in_month(
                days@[k as int],
                month0 as int,
            ) && weekday_slot(days@[k as int].weekday) == v {
                days@[k as int].count as int
            } else {
                0
            }) by {
                lemma_weekday_step(days@, k as int, month0 as int, v);
            }
        }
        let day = &days[k];
        match parse_ymd(day.date.as_str()) {
            Some(d) => {
                assert(chrono_parse_ymd(day.date@) == Some((d.year, d.month, d.day)));
                if (d.month as i64) - 1 == month0 {
                    let slot: usize = if day.weekday < 0 {
                        0
                    } else if day.weekday > 6 {
                        6
                    } else {
                        day.weekday as usize
                    };
                    assert(in_month(days@[k as int], month0 as int));
                    match totals[slot].checked_add(day.count) {
                        Some(updated) => {
                            totals.set(slot, updated);
                        },
                        None => {
                            assert(!fits_i64(
                                weekday_total(days@.take(k + 1), month0 as int, slot as int),
                            ));
                            return None;
                        },
                    }
                }
            },
            None => {},
        }
        assert forall|v: int, j: int|
            0 <= v < 7 && 0 <= j <= k + 1 implies #[trigger] fits_i64(
            weekday_total(days@.take(j), month0 as int, v),
        ) by {
            if j == k + 1 {
                assert(totals@[v] == weekday_total(days@.take(k + 1), month0 as int, v));
            }
        }
        k = k + 1;
    }
    assert(days@.take(k as int) =~= days@);
    assert(totals@ =~= weekday_totals_spec(days@, month0 as int));
    Some(totals)
}

/// The weekday with the highest total (the first among equal totals), or
/// `fallback` where no total reaches 0.
pub fn best_weekday(totals: &Vec<i64>, fallback: usize) -> (best: usize)
    requires
        totals@.len() == 7,
        fallback < 7,
    ensures
        best == best_weekday_spec(totals@, fallback as int),
        best < 7,
{
    let mut best: usize = fallback;
    let mut max_count: i64 = -1;
    let mut idx: usize = 0;
    while idx < 7
        invariant
            idx <= 7,
            totals@.len() == 7,
            fallback < 7,
            best < 7,
            (exists|w: int| 0 <= w < idx && totals@[w] >= 0) ==> {
                &&& best < idx
                &&& max_count == totals@[best as int]
                &&& forall|j: int| 0 <= j < idx ==> totals@[j] <= max_count
                &&& forall|j: int| 0 <= j < best ==> totals@[j] < max_count
            },
            !(exists|w: int| 0 <= w < idx && totals@[w] >= 0) ==> max_count == -1 && best
                == fallback && forall|j: int| 0 <= j < idx ==> totals@[j] < 0,
        decreases 7 - idx,
    {
        if totals[idx] > max_count {
            max_count = totals[idx];
            best = idx;
        }
        idx = idx + 1;
    }
    proof {
        if exists|w: int| 0 <= w < 7 && totals@[w] >= 0 {
            assert(is_first_max(totals@, best as int));
            let c = choose|w: int| is_first_max(totals@, w);
            assert(c == best as int) by {
                if c < best {
                    assert(totals@[c] < totals@[best as int]);
                } else if c > best {
                    assert(totals@[best as int] < totals@[c]);
                }
            }
        }
    }
    best
}

/// The name of a weekday counted from Sunday = 0.
pub fn weekday_name_text(w: usize) -> (name: &'static str)
    requires
        w < 7,
    ensures
        name@ == weekday_name(w as int),
{
    if w == 0 {
        "Sunday"
    } else if w == 1 {
        "Monday"
    } else if w == 2 {
        "Tuesday"
    } else if w == 3 {
        "Wednesday"
    } else if w == 4 {
        "Thursday"
    } else if w == 5 {
        "Friday"
    } else {
        "Saturday"
    }
}

} // verus!
