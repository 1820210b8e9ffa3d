//! What holds of the card's figures whatever the account's data: the calendar
//! rolls over like JavaScript's `Date`, the query windows meet, the ranked lists
//! are ordered and stable, the streak counts days with contributions only, and
//! the focus repository has the most commits.

use vstd::prelude::*;

use crate::activity::{
    day_counts, peak_day_spec, positive_run, ranked_day, streak_from, top_activities_spec,
    weekday_name,
};
use crate::calendar::{
    iso_text, zero_padded, date_text, day_number, days_before_month, days_before_year, days_in_month,
    first_of_month, is_leap_year, long_month_name, month0_of_text, previous_day, short_month_name,
    weekday_of, CalendarDate, MAX_YEAR, MIN_YEAR,
};
use crate::focus::{
    lemma_month_stamp, lemma_repos_in_order_distinct, month_commits, occurrence_month0,
    opens_with_month, repo_totals, repos_in_order, top_repo,
};
use crate::languages::{
    first_color, has_name, language_shares, share_percents, summarizes, top_shares, LanguageTotal,
};
use crate::ranking::{is_first_max, item_of_rank, lemma_rank_onto, lemma_rank_order, ranks_before};
use crate::stats::{
    pinned_cards, timeline_spec, ContributionDay, LanguageEdge, LanguageStatView, PinnedRepoData,
};
use crate::export::{base64_char, base64_standard, data_url_prefix, svg_head, svg_text};
use crate::text::{decimal, digit_char, digits_value, is_digit};

verus! {

/// A month index twelve months later names the same month a year later, as
/// JavaScript's `new Date(year, monthIndex, 1)` rolls over.
pub proof fn law_month_rollover(year: int, month_index: int)
    ensures
        first_of_month(year, month_index + 12) == first_of_month(year + 1, month_index),
{
}

/// Every month index names the first day of a month from January to December.
pub proof fn law_month_start_in_range(year: int, month_index: int)
    ensures
        1 <= first_of_month(year, month_index).month <= 12,
        first_of_month(year, month_index).day == 1,
{
}

/// A year has 366 days where it is a leap year, else 365.
proof fn lemma_days_in_year(year: int)
    ensures
        days_before_year(year + 1) - days_before_year(year) == if is_leap_year(year) {
            366int
        } else {
            365int
        },
{
    assert((year + 4) / 4 - (year + 3) / 4 == if year % 4 == 0 {
        1int
    } else {
        0int
    }) by (nonlinear_arith);
    assert((year + 100) / 100 - (year + 99) / 100 == if year % 100 == 0 {
        1int
    } else {
        0int
    }) by (nonlinear_arith);
    assert((year + 400) / 400 - (year + 399) / 400 == if year % 400 == 0 {
        1int
    } else {
        0int
    }) by (nonlinear_arith);
    assert(year % 100 == 0 ==> year % 4 == 0) by (nonlinear_arith);
    assert(year % 400 == 0 ==> year % 100 == 0) by (nonlinear_arith);
}

/// Consecutive month starts are in order and 28 to 31 days apart: as many days as
/// the earlier month has.
pub proof fn law_month_starts_apart(year: int, month_index: int)
    requires
        MIN_YEAR <= year + month_index / 12,
        year + (month_index + 1) / 12 <= MAX_YEAR,
    ensures
        ({
            let a = first_of_month(year, month_index);
            let b = first_of_month(year, month_index + 1);
            &&& day_number(b) - day_number(a) == days_in_month(a.year as int, a.month as int)
            &&& 28 <= day_number(b) - day_number(a) <= 31
            &&& day_number(a) < day_number(b)
        }),
{
    let a = first_of_month(year, month_index);
    let b = first_of_month(year, month_index + 1);
    let r = month_index % 12;
    let q = month_index / 12;
    assert(month_index == 12 * q + r && 0 <= r < 12) by (nonlinear_arith)
        requires
            q == month_index / 12,
            r == month_index % 12,
    ;
    if r < 11 {
        assert((month_index + 1) / 12 == q && (month_index + 1) % 12 == r + 1) by (nonlinear_arith)
            requires
                month_index == 12 * q + r,
                0 <= r < 11,
        ;
        assert(days_before_month(b.year as int, b.month as int) == days_before_month(
            a.year as int,
            a.month as int,
        ) + days_in_month(a.year as int, a.month as int));
    } else {
        assert((month_index + 1) / 12 == q + 1 && (month_index + 1) % 12 == 0) by (nonlinear_arith)
            requires
                month_index == 12 * q + r,
                r == 11,
        ;
        lemma_days_in_year(a.year as int);
        let y = a.year as int;
        assert(days_before_month(y, 12) == 334 + if is_leap_year(y) {
            1int
        } else {
            0int
        }) by {
            reveal_with_fuel(days_before_month, 12);
        }
    }
}

/// The day before the first of a month is the last day of the month before it
/// (`new Date(year, monthIndex, 0)`).
pub proof fn law_day_zero_is_last_of_previous_month(year: int, month_index: int)
    requires
        MIN_YEAR <= year + month_index / 12 <= MAX_YEAR,
        MIN_YEAR <= year + (month_index - 1) / 12,
    ensures
        ({
            let before = first_of_month(year, month_index - 1);
            previous_day(first_of_month(year, month_index)) == CalendarDate {
                year: before.year,
                month: before.month,
                day: days_in_month(before.year as int, before.month as int) as u32,
            }
        }),
{
}

/// The query's two windows are a year apart: the last year's starts on the same
/// day of the calendar as the current year's, one year earlier (and, by
/// `query_window`, ends the day before the current year's starts).
pub proof fn law_query_windows_meet(year: int, month0: int)
    requires
        0 <= month0 < 12,
        MIN_YEAR <= year - 2 + (month0 + 1) / 12,
        year <= MAX_YEAR,
    ensures
        ({
            let current_start = first_of_month(year - 1, month0 + 1);
            let last_start = first_of_month(year - 2, month0 + 1);
            &&& last_start.year == current_start.year - 1
            &&& last_start.month == current_start.month
            &&& last_start.day == current_start.day
        }),
{
}

/// A decimal numeral is made of digits, writes its number, and is short for a
/// small number.
pub(crate) proof fn lemma_decimal_digits(n: nat)
    ensures
        forall|i: int| 0 <= i < decimal(n).len() ==> is_digit(#[trigger] decimal(n)[i]),
        digits_value(decimal(n)) == n,
        decimal(n).len() >= 1,
        n < 100 ==> decimal(n).len() <= 2,
        n < 1000 ==> decimal(n).len() <= 3,
        n < 10000 ==> decimal(n).len() <= 4,
    decreases n,
{
    if n >= 10 {
        lemma_decimal_digits(n / 10);
        let before = decimal(n / 10);
        assert(decimal(n) == before.push(digit_char(n % 10)));
        assert(before.push(digit_char(n % 10)).drop_last() =~= before);
        assert forall|i: int| 0 <= i < decimal(n).len() implies is_digit(#[trigger] decimal(n)[i]) by {
            if i < before.len() {
                assert(decimal(n)[i] == before[i]);
            }
        }
        assert(digit_char(n % 10) as int == 48 + n % 10);
        assert((n / 10) * 10 + n % 10 == n) by (nonlinear_arith);
        assert(digits_value(before.push(digit_char(n % 10))) == digits_value(before) * 10 + (
        digit_char(n % 10) as int - 48));
        assert(n < 100 ==> n / 10 < 10) by (nonlinear_arith);
        assert(n < 1000 ==> n / 10 < 100) by (nonlinear_arith);
        assert(n < 10000 ==> n / 10 < 1000) by (nonlinear_arith);
    } else {
        assert(seq![digit_char(n)].drop_last() =~= Seq::<char>::empty());
        assert(digit_char(n) as int == 48 + n);
        assert(digits_value(seq![digit_char(n)]) == digits_value(Seq::<char>::empty()) * 10 + (
        digit_char(n) as int - 48));
    }
}

/// Leading zeros do not change the number that digits write.
proof fn lemma_leading_zeros(k: nat, digits: Seq<char>)
    ensures
        digits_value(Seq::new(k, |i: int| '0') + digits) == digits_value(digits),
    decreases digits.len(), k,
{
    let zeros = Seq::new(k, |i: int| '0');
    if digits.len() > 0 {
        lemma_leading_zeros(k, digits.drop_last());
        assert((zeros + digits).drop_last() =~= zeros + digits.drop_last());
    } else {
        assert(zeros + digits =~= zeros);
        if k > 0 {
            lemma_leading_zeros((k - 1) as nat, digits);
            assert(zeros.drop_last() =~= Seq::new((k - 1) as nat, |i: int| '0'));
            assert(Seq::new((k - 1) as nat, |i: int| '0') + digits =~= zeros.drop_last());
        } else {
            assert(zeros =~= Seq::<char>::empty());
        }
    }
}

/// A zero-padded numeral of a number that fits the width has exactly that width,
/// is made of digits and writes the number.
pub(crate) proof fn lemma_zero_padded(n: nat, width: nat)
    requires
        decimal(n).len() <= width,
    ensures
        zero_padded(n, width).len() == width,
        forall|i: int| 0 <= i < width ==> is_digit(#[trigger] zero_padded(n, width)[i]),
        digits_value(zero_padded(n, width)) == n,
{
    lemma_decimal_digits(n);
    let digits = decimal(n);
    if digits.len() < width {
        let k = (width - digits.len()) as nat;
        lemma_leading_zeros(k, digits);
        let padded = Seq::new(k, |i: int| '0') + digits;
        assert forall|i: int| 0 <= i < width implies is_digit(#[trigger] zero_padded(n, width)[i]) by {
            if i >= k {
                assert(padded[i] == digits[i - k]);
            }
        }
    }
}

/// For the years 0 to 9999 the ISO text of a date and time is 24 characters long,
/// `YYYY-MM-DDTHH:MM:SS.000Z`, and its digit fields read back the year, month,
/// day, hour, minute and second.
pub proof fn law_iso_text_shape(date: CalendarDate, hour: nat, minute: nat, second: nat)
    requires
        0 <= date.year <= 9999,
        1 <= date.month <= 12,
        1 <= date.day <= 31,
        hour < 24,
        minute < 60,
        second < 60,
    ensures
        ({
            let t = iso_text(date, hour, minute, second);
            &&& t.len() == 24
            &&& forall|i: int|
                0 <= i < 24 && i != 4 && i != 7 && i != 10 && i != 13 && i != 16 && i != 19 && i
                    != 23 ==> is_digit(#[trigger] t[i])
            &&& t[4] == '-' && t[7] == '-' && t[10] == 'T' && t[13] == ':' && t[16] == ':'
            &&& t[19] == '.' && t[20] == '0' && t[21] == '0' && t[22] == '0' && t[23] == 'Z'
            &&& digits_value(t.subrange(0, 4)) == date.year
            &&& digits_value(t.subrange(5, 7)) == date.month
            &&& digits_value(t.subrange(8, 10)) == date.day
            &&& digits_value(t.subrange(11, 13)) == hour
            &&& digits_value(t.subrange(14, 16)) == minute
            &&& digits_value(t.subrange(17, 19)) == second
        }),
{
    lemma_decimal_digits(date.year as nat);
    lemma_decimal_digits(date.month as nat);
    lemma_decimal_digits(date.day as nat);
    lemma_decimal_digits(hour);
    lemma_decimal_digits(minute);
    lemma_decimal_digits(second);
    let y = zero_padded(date.year as nat, 4);
    let mo = zero_padded(date.month as nat, 2);
    let d = zero_padded(date.day as nat, 2);
    let h = zero_padded(hour, 2);
    let mi = zero_padded(minute, 2);
    let se = zero_padded(second, 2);
    lemma_zero_padded(date.year as nat, 4);
    lemma_zero_padded(date.month as nat, 2);
    lemma_zero_padded(date.day as nat, 2);
    lemma_zero_padded(hour, 2);
    lemma_zero_padded(minute, 2);
    lemma_zero_padded(second, 2);
    let t = iso_text(date, hour, minute, second);
    assert(t =~= y + seq!['-'] + mo + seq!['-'] + d + seq!['T'] + h + seq![':'] + mi + seq![':']
        + se + seq!['.', '0', '0', '0', 'Z']);
    assert(t.subrange(0, 4) =~= y);
    assert(t.subrange(5, 7) =~= mo);
    assert(t.subrange(8, 10) =~= d);
    assert(t.subrange(11, 13) =~= h);
    assert(t.subrange(14, 16) =~= mi);
    assert(t.subrange(17, 19) =~= se);
    assert forall|i: int|
        0 <= i < 24 && i != 4 && i != 7 && i != 10 && i != 13 && i != 16 && i != 19 && i
            != 23 implies is_digit(#[trigger] t[i]) by {
        if i < 4 {
            assert(t[i] == y[i]);
        } else if i < 7 {
            assert(t[i] == mo[i - 5]);
        } else if i < 10 {
            assert(t[i] == d[i - 8]);
        } else if i < 13 {
            assert(t[i] == h[i - 11]);
        } else if i < 16 {
            assert(t[i] == mi[i - 14]);
        } else if i < 19 {
            assert(t[i] == se[i - 17]);
        }
    }
}

/// The six-bit value of a character of the standard base64 alphabet.
pub open spec fn base64_value(c: char) -> int {
    if 'A' <= c <= 'Z' {
        c as int - 65
    } else if 'a' <= c <= 'z' {
        c as int - 97 + 26
    } else if '0' <= c <= '9' {
        c as int - 48 + 52
    } else if c == '+' {
        62
    } else {
        63
    }
}

/// Standard base64 read back into bytes, four characters at a time; a group with
/// `=` padding ends the text.
pub open spec fn base64_decode(text: Seq<char>) -> Seq<u8>
    decreases text.len(),
{
    if text.len() < 4 {
        Seq::empty()
    } else {
        let v0 = base64_value(text[0]);
        let v1 = base64_value(text[1]);
        let v2 = base64_value(text[2]);
        let v3 = base64_value(text[3]);
        let b0 = (v0 * 4 + v1 / 16) as u8;
        let b1 = ((v1 % 16) * 16 + v2 / 4) as u8;
        let b2 = ((v2 % 4) * 64 + v3) as u8;
        if text[2] == '=' {
            seq![b0]
        } else if text[3] == '=' {
            seq![b0, b1]
        } else {
            seq![b0, b1, b2] + base64_decode(text.skip(4))
        }
    }
}

proof fn lemma_base64_char(v: int)
    requires
        0 <= v < 64,
    ensures
        base64_value(base64_char(v)) == v,
        base64_char(v) != '=',
        base64_char(v) != '"',
{
}

proof fn lemma_base64_group(b0: int, b1: int, b2: int)
    requires
        0 <= b0 < 256,
        0 <= b1 < 256,
        0 <= b2 < 256,
    ensures
        0 <= b0 / 4 < 64,
        0 <= (b0 % 4) * 16 + b1 / 16 < 64,
        0 <= (b1 % 16) * 4 + b2 / 64 < 64,
        0 <= b2 % 64 < 64,
        (b0 / 4) * 4 + ((b0 % 4) * 16 + b1 / 16) / 16 == b0,
        (((b0 % 4) * 16 + b1 / 16) % 16) * 16 + ((b1 % 16) * 4 + b2 / 64) / 4 == b1,
        (((b1 % 16) * 4 + b2 / 64) % 4) * 64 + b2 % 64 == b2,
{
    let q0 = b0 / 4;
    let r0 = b0 % 4;
    let q1 = b1 / 16;
    let r1 = b1 % 16;
    let q2 = b2 / 64;
    let r2 = b2 % 64;
    assert(b0 == 4 * q0 + r0 && 0 <= r0 < 4 && 0 <= q0 < 64) by (nonlinear_arith)
        requires
            q0 == b0 / 4,
            r0 == b0 % 4,
            0 <= b0 < 256,
    ;
    assert(b1 == 16 * q1 + r1 && 0 <= r1 < 16 && 0 <= q1 < 16) by (nonlinear_arith)
        requires
            q1 == b1 / 16,
            r1 == b1 % 16,
            0 <= b1 < 256,
    ;
    assert(b2 == 64 * q2 + r2 && 0 <= r2 < 64 && 0 <= q2 < 4) by (nonlinear_arith)
        requires
            q2 == b2 / 64,
            r2 == b2 % 64,
            0 <= b2 < 256,
    ;
    assert((r0 * 16 + q1) / 16 == r0 && (r0 * 16 + q1) % 16 == q1) by (nonlinear_arith)
        requires
            0 <= r0 < 4,
            0 <= q1 < 16,
    ;
    assert((r1 * 4 + q2) / 4 == r1 && (r1 * 4 + q2) % 4 == q2) by (nonlinear_arith)
        requires
            0 <= r1 < 16,
            0 <= q2 < 4,
    ;
}

/// Reading standard base64 back gives the bytes that were encoded, and the text
/// holds no `"`, so that it ends where the attribute that holds it ends.
pub proof fn law_base64_round_trip(bytes: Seq<u8>)
    ensures
        base64_decode(base64_standard(bytes)) == bytes,
        forall|i: int|
            0 <= i < base64_standard(bytes).len() ==> #[trigger] base64_standard(bytes)[i] != '"',
    decreases bytes.len(),
{
    let e = base64_standard(bytes);
    if bytes.len() == 0 {
        assert(base64_decode(e) =~= bytes);
    } else {
        let b0 = bytes[0] as int;
        let b1 = if bytes.len() > 1 {
            bytes[1] as int
        } else {
            0
        };
        let b2 = if bytes.len() > 2 {
            bytes[2] as int
        } else {
            0
        };
        lemma_base64_group(b0, b1, b2);
        lemma_base64_char(b0 / 4);
        lemma_base64_char((b0 % 4) * 16 + b1 / 16);
        lemma_base64_char((b1 % 16) * 4 + b2 / 64);
        lemma_base64_char(b2 % 64);
        if bytes.len() == 1 {
            lemma_base64_group(b0, 0, 0);
            assert(base64_decode(e) =~= bytes);
        } else if bytes.len() == 2 {
            lemma_base64_group(b0, b1, 0);
            assert(base64_decode(e) =~= bytes);
        } else {
            let rest = bytes.skip(3);
            law_base64_round_trip(rest);
            let head = seq![
                base64_char(b0 / 4),
                base64_char((b0 % 4) * 16 + b1 / 16),
                base64_char((b1 % 16) * 4 + b2 / 64),
                base64_char(b2 % 64),
            ];
            assert(e == head + base64_standard(rest));
            assert(e.skip(4) =~= base64_standard(rest));
            assert(e[2] == head[2] && e[3] == head[3]);
            assert(bytes =~= seq![bytes[0], bytes[1], bytes[2]] + rest);
            assert forall|i: int| 0 <= i < e.len() implies #[trigger] e[i] != '"' by {
                if i >= 4 {
                    assert(e[i] == base64_standard(rest)[i - 4]);
                }
            }
        }
    }
}

/// The SVG frame of a PNG holds the image's base64 text right after
/// `data:image/png;base64,` and up to the next `"`, and reading that text back
/// gives the PNG's bytes.
pub proof fn law_svg_embeds_png(width: nat, height: nat, png: Seq<u8>)
    ensures
        ({
            let svg = svg_text(width, height, base64_standard(png));
            let start = svg_head(width, height).len() as int;
            let end = start + base64_standard(png).len();
            &&& svg.subrange(start - data_url_prefix().len(), start) == data_url_prefix()
            &&& forall|i: int| start <= i < end ==> #[trigger] svg[i] != '"'
            &&& end < svg.len() && svg[end] == '"'
            &&& base64_decode(svg.subrange(start, end)) == png
        }),
{
    law_base64_round_trip(png);
    let e = base64_standard(png);
    let head = svg_head(width, height);
    let svg = svg_text(width, height, e);
    let start = head.len() as int;
    let end = start + e.len();
    assert(svg.subrange(start, end) =~= e);
    assert(head.subrange(start - data_url_prefix().len(), start) =~= data_url_prefix());
    assert(svg.subrange(start - data_url_prefix().len(), start) =~= data_url_prefix());
    assert forall|i: int| start <= i < end implies #[trigger] svg[i] != '"' by {
        assert(svg[i] == e[i - start]);
    }
}

/// In the stable descending order, keys never increase from one rank to the next,
/// and items with equal keys keep their order.
pub proof fn law_stable_order(keys: Seq<i64>, t: int, u: int)
    requires
        0 <= t < u < keys.len(),
    ensures
        ranks_before(keys, item_of_rank(keys, t), item_of_rank(keys, u)),
        keys[item_of_rank(keys, t)] >= keys[item_of_rank(keys, u)],
        keys[item_of_rank(keys, t)] == keys[item_of_rank(keys, u)] ==> item_of_rank(keys, t)
            < item_of_rank(keys, u),
{
    lemma_rank_onto(keys, t);
    lemma_rank_onto(keys, u);
    let a = item_of_rank(keys, t);
    let b = item_of_rank(keys, u);
    lemma_rank_order(keys, a, b);
    lemma_rank_order(keys, b, a);
    if !ranks_before(keys, a, b) {
        assert(a != b);
        assert(ranks_before(keys, b, a));
    }
}

/// The top days of the card are ordered by count, highest first.
pub proof fn law_top_activities_descending(days: Seq<ContributionDay>, t: int, u: int)
    requires
        0 <= t < u < top_activities_spec(days).len(),
    ensures
        top_activities_spec(days)[t].count >= top_activities_spec(days)[u].count,
{
    let counts = day_counts(days);
    law_stable_order(counts, t, u);
    lemma_rank_onto(counts, t);
    lemma_rank_onto(counts, u);
    assert(top_activities_spec(days)[t] == ranked_day(days, t));
    assert(top_activities_spec(days)[u] == ranked_day(days, u));
    assert(counts[item_of_rank(counts, t)] == days[item_of_rank(counts, t)].count);
    assert(counts[item_of_rank(counts, u)] == days[item_of_rank(counts, u)].count);
}

/// The peak day is the first of the top days, and no day has more contributions.
pub proof fn law_peak_day_is_busiest(days: Seq<ContributionDay>, today: Seq<char>)
    requires
        days.len() > 0,
    ensures
        peak_day_spec(days, today) == top_activities_spec(days)[0],
        forall|i: int| 0 <= i < days.len() ==> days[i].count <= peak_day_spec(days, today).count,
{
    let counts = day_counts(days);
    lemma_rank_onto(counts, 0);
    let top = item_of_rank(counts, 0);
    assert forall|i: int| 0 <= i < days.len() implies days[i].count <= peak_day_spec(
        days,
        today,
    ).count by {
        lemma_rank_order(counts, i, top);
        assert(counts[i] == days[i].count);
    }
}

/// The languages of the card are ordered by share, highest first.
pub proof fn law_top_languages_descending(shares: Seq<LanguageStatView>, t: int, u: int)
    requires
        0 <= t < u < top_shares(shares).len(),
    ensures
        top_shares(shares)[t].percent >= top_shares(shares)[u].percent,
{
    let percents = share_percents(shares);
    law_stable_order(percents, t, u);
    lemma_rank_onto(percents, t);
    lemma_rank_onto(percents, u);
    assert(percents[item_of_rank(percents, t)] == shares[item_of_rank(percents, t)].percent);
    assert(percents[item_of_rank(percents, u)] == shares[item_of_rank(percents, u)].percent);
}

/// The days of a positive run all have contributions, and the day before the run
/// (where there is one) has none.
proof fn lemma_positive_run_days(counts: Seq<i64>, end: int)
    requires
        0 <= end <= counts.len(),
    ensures
        positive_run(counts, end) <= end,
        forall|j: int| end - positive_run(counts, end) <= j < end ==> counts[j] > 0,
        positive_run(counts, end) < end ==> counts[end - positive_run(counts, end) - 1] <= 0,
    decreases end,
{
    if end > 0 && counts[end - 1] > 0 {
        lemma_positive_run_days(counts, end - 1);
    }
}

/// The streak up to a day counts exactly the days with contributions right before
/// it (and the day itself where it has some): each of them has contributions, and
/// the day before them, where there is one, has none.
pub proof fn law_streak_counts_active_days(counts: Seq<i64>, start: int)
    requires
        0 <= start < counts.len(),
        counts[start] >= 0,
    ensures
        ({
            let end = if counts[start] > 0 {
                start + 1
            } else {
                start
            };
            &&& streak_from(counts, start) <= end
            &&& forall|j: int| end - streak_from(counts, start) <= j < end ==> counts[j] > 0
            &&& streak_from(counts, start) < end ==> counts[end - streak_from(counts, start) - 1]
                <= 0
        }),
{
    if counts[start] > 0 {
        lemma_positive_run_days(counts, start + 1);
    } else {
        lemma_positive_run_days(counts, start);
    }
}

/// The card holds at most one repository per featured slot of the settings.
pub proof fn law_pinned_cards_bounded(
    topics: Seq<Seq<char>>,
    repos: Seq<Option<PinnedRepoData>>,
    n: int,
)
    requires
        0 <= n,
    ensures
        pinned_cards(topics, repos, n).len() <= n,
    decreases n,
{
    if n > 0 {
        law_pinned_cards_bounded(topics, repos, n - 1);
    }
}

/// A featured repository that the response holds has its card, labeled from the
/// settings; one it lacks adds none.
pub proof fn law_pinned_card_per_slot(
    topics: Seq<Seq<char>>,
    repos: Seq<Option<PinnedRepoData>>,
    n: int,
)
    requires
        0 < n,
    ensures
        n - 1 < repos.len() && repos[n - 1] is Some ==> pinned_cards(topics, repos, n).len()
            == pinned_cards(topics, repos, n - 1).len() + 1 && pinned_cards(topics, repos, n).last().topic
            == topics[n - 1],
        !(n - 1 < repos.len() && repos[n - 1] is Some) ==> pinned_cards(topics, repos, n)
            == pinned_cards(topics, repos, n - 1),
{
}

/// The focus repository has at least as many commits in the month as every other
/// repository with commits in it; there is one as soon as one repository has commits.
pub proof fn law_focus_has_most_commits(
    contribs: Seq<crate::stats::RepoContributions>,
    month0: int,
    other: Seq<char>,
)
    requires
        repos_in_order(month_commits(contribs, month0)).contains(other),
    ensures
        top_repo(contribs, month0) matches Some(top) && {
            let names = repos_in_order(month_commits(contribs, month0));
            let totals = repo_totals(month_commits(contribs, month0));
            &&& names.contains(top)
            &&& totals[names.index_of(other)] <= totals[names.index_of(top)]
        },
{
    let commits = month_commits(contribs, month0);
    let totals = repo_totals(commits);
    let names = repos_in_order(commits);
    lemma_repos_in_order_distinct(commits);
    first_max_exists(totals);
    let c = choose|k: int| is_first_max(totals, k);
    let top = names[c];
    assert(names.contains(top));
    let i = names.index_of(top);
    assert(0 <= i < names.len() && names[i] == top);
    assert(i == c);
    let j = names.index_of(other);
    assert(0 <= j < names.len() && names[j] == other);
}

/// A non-empty sequence of keys has a first item with the highest key.
proof fn first_max_exists(keys: Seq<i64>)
    requires
        keys.len() > 0,
    ensures
        exists|k: int| is_first_max(keys, k),
{
    lemma_rank_onto(keys, 0);
    let k = item_of_rank(keys, 0);
    assert(is_first_max(keys, k)) by {
        assert forall|j: int| 0 <= j < keys.len() implies keys[j] <= keys[k] by {
            lemma_rank_order(keys, j, k);
        }
        assert forall|j: int| 0 <= j < k implies keys[j] < keys[k] by {
            lemma_rank_order(keys, j, k);
        }
    }
}


/// The weekday names follow the seven-day cycle of the calendar: 2 January 2000
/// was a Sunday, and a date `n` days after it is named by `n` modulo 7 in the
/// order Sunday, Monday, Tuesday, Wednesday, Thursday, Friday, Saturday (so
/// 5 March 2024 is a Tuesday and 7 March 2024 a Thursday).
pub proof fn law_weekday_names_follow_calendar(date: CalendarDate)
    requires
        date.is_valid(),
    ensures
        weekday_name(weekday_of(date)) == seq![
            "Sunday"@,
            "Monday"@,
            "Tuesday"@,
            "Wednesday"@,
            "Thursday"@,
            "Friday"@,
            "Saturday"@,
        ][(day_number(date) - day_number(CalendarDate { year: 2000, month: 1, day: 2 })) % 7],
{
    let sunday = CalendarDate { year: 2000, month: 1, day: 2 };
    assert(days_before_month(2000, 1) == 0);
    assert(day_number(sunday) == 730486);
    let n = day_number(date);
    assert((n - 730486) % 7 == (n + 6) % 7) by (nonlinear_arith);
    let w = (n + 6) % 7;
    assert(0 <= w < 7);
}

/// A short month name is the first three letters of the month's English name
/// (so month 7 reads `Jul`).
pub proof fn law_short_month_is_prefix_of_name(month: int)
    requires
        1 <= month <= 12,
    ensures
        short_month_name(month) == long_month_name(month).take(3),
{
    if month == 1 {
        reveal_strlit("Jan");
        reveal_strlit("January");
    } else if month == 2 {
        reveal_strlit("Feb");
        reveal_strlit("February");
    } else if month == 3 {
        reveal_strlit("Mar");
        reveal_strlit("March");
    } else if month == 4 {
        reveal_strlit("Apr");
        reveal_strlit("April");
    } else if month == 5 {
        reveal_strlit("May");
    } else if month == 6 {
        reveal_strlit("Jun");
        reveal_strlit("June");
    } else if month == 7 {
        reveal_strlit("Jul");
        reveal_strlit("July");
    } else if month == 8 {
        reveal_strlit("Aug");
        reveal_strlit("August");
    } else if month == 9 {
        reveal_strlit("Sep");
        reveal_strlit("September");
    } else if month == 10 {
        reveal_strlit("Oct");
        reveal_strlit("October");
    } else if month == 11 {
        reveal_strlit("Nov");
        reveal_strlit("November");
    } else {
        reveal_strlit("Dec");
        reveal_strlit("December");
    }
    assert(short_month_name(month) =~= long_month_name(month).take(3));
}

/// A time stamp that begins with a year and month as `YYYY-MM` is read as the first
/// day of that month: its month is what chrono gives for the date `YYYY-MM-01`.
pub proof fn law_stamp_month_is_first_of_month(stamp: Seq<char>, year: nat, month: nat)
    requires
        opens_with_month(stamp, year, month),
    ensures
        occurrence_month0(stamp) == month0_of_text(
            date_text(CalendarDate { year: year as i32, month: month as u32, day: 1 }),
        ),
{
    lemma_month_stamp(stamp, year, month);
}

/// Each point of the timeline is the day at the same position, with its own date
/// and its own count.
pub proof fn law_timeline_keeps_each_day(days: Seq<ContributionDay>, k: int)
    requires
        0 <= k < days.len(),
    ensures
        timeline_spec(days).len() == days.len(),
        timeline_spec(days)[k].date == days[k].date@,
        timeline_spec(days)[k].count == days[k].count,
{
}

/// Every language share on the card is a language of the repositories with its
/// own color, the color of the first edge of that language, and its own share.
pub proof fn law_language_share_colors(
    entries: Seq<LanguageTotal>,
    edges: Seq<LanguageEdge>,
    percents: Seq<i64>,
    t: int,
)
    requires
        summarizes(entries, edges),
        percents.len() == entries.len(),
        0 <= t < top_shares(language_shares(entries, percents)).len(),
    ensures
        ({
            let s = top_shares(language_shares(entries, percents))[t];
            &&& has_name(edges, s.name)
            &&& s.color == first_color(edges, s.name)
            &&& exists|i: int|
                0 <= i < entries.len() && entries[i].name@ == s.name && percents[i] == s.percent
        }),
{
    let shares = language_shares(entries, percents);
    let i = item_of_rank(share_percents(shares), t);
    lemma_rank_onto(share_percents(shares), t);
    assert(top_shares(shares)[t] == shares[i]);
    assert(shares[i].name == entries[i].name@);
}

} // verus!
