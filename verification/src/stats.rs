//! The figures of the profile card: the shape the card's template reads, the
//! plain data that the GitHub GraphQL response provides, and the headline
//! figures and featured repositories.

use vstd::prelude::*;

use crate::activity::{
    best_weekday, best_weekday_spec, busiest_days, current_streak, current_streak_spec,
    peak_day_spec, top_activities_spec, weekday_name, weekday_name_text, weekday_totals,
    weekday_totals_fit, weekday_totals_spec,
};
use crate::calendar::{
    date_text, format_month_name, format_ymd, long_month_name,
    weekday_from_sunday, weekday_of, CalendarDate,
};
use crate::config::Config;
use crate::focus::{commit_totals_fit, focus_html, focus_name, month_commits, monthly_focus};
use crate::laws::{law_language_share_colors, law_timeline_keeps_each_day};
use crate::languages::{
    all_edges, first_color, has_name, language_shares, lemma_top_languages_of_views,
    rank_languages, summarizes, top_shares,
    LanguageTotals,
};

verus! {

// ----- What the card shows -----

/// The headline counts of the card.
#[derive(Clone, Copy, Debug, PartialEq, Eq, Structural)]
pub struct Hero {
    pub total_repos: i64,
    pub total_stars: i64,
    pub total_followers: i64,
    pub total_issues: i64,
}

/// One featured repository as the card shows it.
#[derive(Debug)]
pub struct PinnedOut {
    pub title: String,
    pub description: Option<String>,
    pub language: String,
    pub language_color: String,
    pub stars: i64,
    pub watches: i64,
    pub url: String,
    pub topic: String,
}

/// A language with its share, in percent, of the code of the account's repositories.
#[derive(Debug)]
pub struct LanguageStat {
    pub name: String,
    pub percent: i64,
    pub color: String,
}

/// A day of the contribution timeline.
#[derive(Debug)]
pub struct DayPoint {
    pub date: String,
    pub count: i64,
}

/// The day with the most contributions.
#[derive(Debug)]
pub struct PeakDay {
    pub date: String,
    pub count: i64,
}

/// The contribution timeline of the last year.
#[derive(Debug)]
pub struct TimelineStats {
    pub timeline: Vec<DayPoint>,
}

/// The activity section of the card.
#[derive(Debug)]
pub struct Chronicle {
    pub total_contribution_volume: i64,
    pub growth_percentage: String,
    pub most_used_language: Option<LanguageStat>,
    pub current_streak: i64,
    pub peak_activity_day: PeakDay,
    pub top_activities: Vec<DayPoint>,
    pub monthly_focus: String,
    pub monthly_focus_html: String,
    pub most_productive_day: String,
    pub languages: Vec<LanguageStat>,
    pub stack: Vec<String>,
    pub stats: TimelineStats,
}

/// Everything the card's template reads.
#[derive(Debug)]
pub struct Output {
    pub hero: Hero,
    pub pinned: Vec<PinnedOut>,
    pub chronicle: Chronicle,
}

/// A featured repository with its texts as character sequences.
pub struct PinnedOutView {
    pub title: Seq<char>,
    pub description: Option<Seq<char>>,
    pub language: Seq<char>,
    pub language_color: Seq<char>,
    pub stars: i64,
    pub watches: i64,
    pub url: Seq<char>,
    pub topic: Seq<char>,
}

/// A language share with its texts as character sequences.
pub struct LanguageStatView {
    pub name: Seq<char>,
    pub percent: i64,
    pub color: Seq<char>,
}

/// A dated count with its date as a character sequence.
pub struct DayPointView {
    pub date: Seq<char>,
    pub count: i64,
}

/// The characters of an optional string.
pub open spec fn opt_text(text: Option<String>) -> Option<Seq<char>> {
    match text {
        Some(t) => Some(t@),
        None => None,
    }
}

impl View for PinnedOut {
    type V = PinnedOutView;

    open spec fn view(&self) -> PinnedOutView {
        PinnedOutView {
            title: self.title@,
            description: opt_text(self.description),
            language: self.language@,
            language_color: self.language_color@,
            stars: self.stars,
            watches: self.watches,
            url: self.url@,
            topic: self.topic@,
        }
    }
}

impl View for LanguageStat {
    type V = LanguageStatView;

    open spec fn view(&self) -> LanguageStatView {
        LanguageStatView { name: self.name@, percent: self.percent, color: self.color@ }
    }
}

impl View for DayPoint {
    type V = DayPointView;

    open spec fn view(&self) -> DayPointView {
        DayPointView { date: self.date@, count: self.count }
    }
}

impl View for PeakDay {
    type V = DayPointView;

    open spec fn view(&self) -> DayPointView {
        DayPointView { date: self.date@, count: self.count }
    }
}

/// The views of a sequence of items.
pub open spec fn views<T: View>(items: Seq<T>) -> Seq<T::V> {
    items.map_values(|item: T| item@)
}

// ----- What the GraphQL response provides -----

/// A language of a repository with the bytes of code written in it.
pub struct LanguageEdge {
    pub size: i64,
    pub name: String,
    pub color: String,
}

/// A repository owned by the account.
pub struct RepoNode {
    pub stargazer_count: i64,
    pub languages: Vec<LanguageEdge>,
}

/// What the response holds of a featured repository; the language and its color
/// are `None` where the repository has no primary language.
pub struct PinnedRepoData {
    pub name: String,
    pub description: Option<String>,
    pub language: Option<String>,
    pub language_color: Option<String>,
    pub stargazer_count: i64,
    pub watchers: i64,
    pub url: String,
}

/// A day of the contribution calendar; `weekday` counts from Sunday = 0.
pub struct ContributionDay {
    pub date: String,
    pub count: i64,
    pub weekday: i64,
}

/// A commit contribution to a repository, with its time stamp.
pub struct CommitOccurrence {
    pub occurred_at: String,
    pub commit_count: i64,
}

/// The commit contributions of the current year to one repository.
pub struct RepoContributions {
    pub repo_name: String,
    pub primary_language: Option<String>,
    pub occurrences: Vec<CommitOccurrence>,
}

/// The figures of the account that the GraphQL response holds.
pub struct ProfileData {
    pub total_repos: i64,
    pub followers: i64,
    pub open_issues: i64,
    /// The account's own repositories that are not forks.
    pub repositories: Vec<RepoNode>,
    /// Entry `i` is the featured repository `i` of the settings, `None` where the
    /// response has none (the name does not exist under the account).
    pub pinned: Vec<Option<PinnedRepoData>>,
    pub current_year_total: i64,
    pub last_year_total: i64,
    /// The days of the contribution calendar of the current year, week by week.
    pub days: Vec<ContributionDay>,
    pub contributions: Vec<RepoContributions>,
}

// ----- Sums -----

/// Whether `x` fits in an `i64`.
pub open spec fn fits_i64(x: int) -> bool {
    i64::MIN <= x <= i64::MAX
}

/// The sum of a sequence of numbers.
pub open spec fn sum_of(values: Seq<int>) -> int
    decreases values.len(),
{
    if values.len() == 0 {
        0
    } else {
        sum_of(values.drop_last()) + values.last()
    }
}

/// The sum of two sequences one after the other is the sum of both.
pub proof fn lemma_sum_concat(a: Seq<int>, b: Seq<int>)
    ensures
        sum_of(a + b) == sum_of(a) + sum_of(b),
    decreases b.len(),
{
    if b.len() > 0 {
        lemma_sum_concat(a, b.drop_last());
        assert((a + b).drop_last() =~= a + b.drop_last());
    } else {
        assert(a + b =~= a);
    }
}

/// Inserting a value adds it to the sum; replacing one swaps it in the sum.
pub proof fn lemma_sum_insert_update(values: Seq<int>, p: int, x: int)
    requires
        0 <= p <= values.len(),
    ensures
        sum_of(values.insert(p, x)) == sum_of(values) + x,
        p < values.len() ==> sum_of(values.update(p, x)) == sum_of(values) - values[p] + x,
{
    lemma_sum_concat(values.take(p), values.skip(p));
    assert(values.take(p) + values.skip(p) =~= values);
    lemma_sum_concat(values.take(p).push(x), values.skip(p));
    assert(values.take(p).push(x) + values.skip(p) =~= values.insert(p, x));
    assert(values.take(p).push(x).drop_last() =~= values.take(p));
    if p < values.len() {
        lemma_sum_concat(values.take(p).push(x), values.skip(p + 1));
        assert(values.take(p).push(x) + values.skip(p + 1) =~= values.update(p, x));
        lemma_sum_concat(values.take(p).push(values[p]), values.skip(p + 1));
        assert(values.take(p).push(values[p]) + values.skip(p + 1) =~= values);
        assert(values.take(p).push(values[p]).drop_last() =~= values.take(p));
    }
}

/// Whether every running total of `values`, from the first one on, fits in an `i64`.
pub open spec fn running_sums_fit(values: Seq<int>) -> bool {
    forall|k: int| 0 <= k <= values.len() ==> #[trigger] fits_i64(sum_of(values.take(k)))
}

// ----- Headline figures and featured repositories -----

/// The stargazer counts of the repositories, in order.
pub open spec fn star_counts(repos: Seq<RepoNode>) -> Seq<int> {
    repos.map_values(|r: RepoNode| r.stargazer_count as int)
}

/// The headline counts.
pub open spec fn hero_spec(data: ProfileData) -> Hero {
    Hero {
        total_repos: data.total_repos,
        total_stars: sum_of(star_counts(data.repositories@)) as i64,
        total_followers: data.followers,
        total_issues: data.open_issues,
    }
}

/// The total number of stars of the repositories; `None` where a running total
/// leaves the range of `i64`.
pub fn total_stars(repos: &Vec<RepoNode>) -> (total: Option<i64>)
    ensures
        total is Some <==> running_sums_fit(star_counts(repos@)),
        total matches Some(t) ==> t == sum_of(star_counts(repos@)),
{
    let ghost stars = star_counts(repos@);
    let mut total: i64 = 0;
    let mut i: usize = 0;
    assert(stars.take(0) =~= Seq::<int>::empty());
    while i < repos.len()
        invariant
            i <= repos@.len(),
            stars == star_counts(repos@),
            stars.len() == repos@.len(),
            forall|k: int| 0 <= k <= i ==> #[trigger] fits_i64(sum_of(stars.take(k))),
            total == sum_of(stars.take(i as int)),
        decreases repos@.len() - i,
    {
        assert(stars.take(i + 1).drop_last() =~= stars.take(i as int));
        match total.checked_add(repos[i].stargazer_count) {
            Some(t) => {
                total = t;
            },
            None => {
                assert(!fits_i64(sum_of(stars.take(i + 1))));
                return None;
            },
        }
        i = i + 1;
    }
    assert(stars.take(i as int) =~= stars);
    Some(total)
}

/// The headline counts of the card; `None` where the star total leaves the range
/// of `i64`.
pub fn hero(data: &ProfileData) -> (h: Option<Hero>)
    ensures
        h is Some <==> running_sums_fit(star_counts(data.repositories@)),
        h matches Some(h) ==> h == hero_spec(*data),
{
    let total_stars = match total_stars(&data.repositories) {
        Some(t) => t,
        None => return None,
    };
    Some(
        Hero {
            total_repos: data.total_repos,
            total_stars,
            total_followers: data.followers,
            total_issues: data.open_issues,
        },
    )
}

/// The card of a featured repository: its texts, with `N/A` and `#ccc` where it
/// has no primary language, and the label from the settings.
pub open spec fn pinned_card(repo: PinnedRepoData, topic: Seq<char>) -> PinnedOutView {
    PinnedOutView {
        title: repo.name@,
        description: opt_text(repo.description),
        language: match repo.language {
            Some(l) => l@,
            None => "N/A"@,
        },
        language_color: match repo.language_color {
            Some(c) => c@,
            None => "#ccc"@,
        },
        stars: repo.stargazer_count,
        watches: repo.watchers,
        url: repo.url@,
        topic,
    }
}

/// The cards of the first `n` featured repositories of the settings, leaving out
/// those that the response does not hold.
pub open spec fn pinned_cards(
    topics: Seq<Seq<char>>,
    repos: Seq<Option<PinnedRepoData>>,
    n: int,
) -> Seq<PinnedOutView>
    decreases n,
{
    if n <= 0 {
        Seq::empty()
    } else {
        let before = pinned_cards(topics, repos, n - 1);
        if n - 1 < repos.len() && repos[n - 1] is Some {
            before.push(pinned_card(repos[n - 1]->0, topics[n - 1]))
        } else {
            before
        }
    }
}

/// A copy of an optional string.
fn copy_opt(text: &Option<String>) -> (copy: Option<String>)
    ensures
        opt_text(copy) == opt_text(*text),
{
    match text {
        Some(t) => Some(t.clone()),
        None => None,
    }
}

/// The card of one featured repository.
fn pinned_out(repo: &PinnedRepoData, topic: &str) -> (card: PinnedOut)
    ensures
        card@ == pinned_card(*repo, topic@),
{
    let language = match &repo.language {
        Some(l) => l.clone(),
        None => "N/A".to_owned(),
    };
    let language_color = match &repo.language_color {
        Some(c) => c.clone(),
        None => "#ccc".to_owned(),
    };
    PinnedOut {
        title: repo.name.clone(),
        description: copy_opt(&repo.description),
        language,
        language_color,
        stars: repo.stargazer_count,
        watches: repo.watchers,
        url: repo.url.clone(),
        topic: topic.to_owned(),
    }
}

/// The cards of the featured repositories of the settings, in their order, for
/// those that the response holds.
pub fn pinned_outs(config: &Config, repos: &Vec<Option<PinnedRepoData>>) -> (cards: Vec<PinnedOut>)
    ensures
        views(cards@) == pinned_cards(
            config.pinned_topics(),
            repos@,
            config.pinned@.len() as int,
        ),
{
    let ghost topics = config.pinned_topics();
    let mut cards: Vec<PinnedOut> = Vec::new();
    let mut i: usize = 0;
    while i < config.pinned.len()
        invariant
            i <= config.pinned@.len(),
            topics == config.pinned_topics(),
            topics.len() == config.pinned@.len(),
            views(cards@) == pinned_cards(topics, repos@, i as int),
        decreases config.pinned@.len() - i,
    {
        let ghost before = cards@;
        if i < repos.len() {
            match &repos[i] {
                Some(repo) => {
                    let card = pinned_out(repo, config.pinned[i].topic);
                    cards.push(card);
                    assert(views(cards@) =~= views(before).push(card@));
                },
                None => {},
            }
        }
        i = i + 1;
    }
    cards
}

// ----- The whole card -----

/// The timeline of the card: every day with its date and count, in order.
pub open spec fn timeline_spec(days: Seq<ContributionDay>) -> Seq<DayPointView> {
    days.map_values(|d: ContributionDay| DayPointView { date: d.date@, count: d.count })
}

/// Copies of the settings' stack chips.
fn stack_strings(config: &Config) -> (stack: Vec<String>)
    ensures
        views(stack@) == config.stack_names(),
{
    let mut stack: Vec<String> = Vec::new();
    let mut k: usize = 0;
    while k < config.stack.len()
        invariant
            k <= config.stack@.len(),
            stack@.len() == k,
            config.stack_names().len() == config.stack@.len(),
            views(stack@) == config.stack_names().take(k as int),
        decreases config.stack@.len() - k,
    {
        let ghost before = stack@;
        stack.push(config.stack[k].to_owned());
        assert forall|j: int| 0 <= j <= k implies views(stack@)[j] == config.stack_names()[j] by {
            if j < k {
                assert(stack@[j] == before[j]);
                assert(views(before)[j] == config.stack_names().take(k as int)[j]);
            }
        }
        assert(views(stack@) =~= config.stack_names().take(k + 1));
        k = k + 1;
    }
    assert(config.stack_names().take(k as int) =~= config.stack_names());
    stack
}

/// The timeline of the card.
fn timeline(days: &Vec<ContributionDay>) -> (points: Vec<DayPoint>)
    ensures
        views(points@) == timeline_spec(days@),
{
    let mut points: Vec<DayPoint> = Vec::new();
    let mut k: usize = 0;
    while k < days.len()
        invariant
            k <= days@.len(),
            points@.len() == k,
            timeline_spec(days@).len() == days@.len(),
            views(points@) == timeline_spec(days@).take(k as int),
        decreases days@.len() - k,
    {
        let ghost before = points@;
        points.push(DayPoint { date: days[k].date.clone(), count: days[k].count });
        assert forall|j: int| 0 <= j <= k implies views(points@)[j] == timeline_spec(days@)[j] by {
            if j < k {
                assert(points@[j] == before[j]);
                assert(views(before)[j] == timeline_spec(days@).take(k as int)[j]);
            }
        }
        assert(views(points@) =~= timeline_spec(days@).take(k + 1));
        k = k + 1;
    }
    assert(timeline_spec(days@).take(k as int) =~= timeline_spec(days@));
    points
}

/// Whether every running total that the card adds up fits in an `i64`: the stars,
/// the contributions per weekday of the current month and the commits per
/// repository of the current month.
pub open spec fn card_totals_fit(data: ProfileData, today: CalendarDate) -> bool {
    &&& running_sums_fit(star_counts(data.repositories@))
    &&& weekday_totals_fit(data.days@, today.month - 1)
    &&& commit_totals_fit(month_commits(data.contributions@, today.month - 1))
}

/// Everything the card shows, from the settings, the account's figures, today's
/// date, the languages of the account's repositories summed up (`totals`, as
/// `aggregate_languages` gives them) with each one's share in percent, and the
/// growth text; `None` where a running total leaves the range of `i64`.
///
/// The shares in percent and the growth of contributions over last year are
/// computed in floating point by the caller.
pub fn generate_stats(
    config: &Config,
    data: &ProfileData,
    today: CalendarDate,
    totals: &LanguageTotals,
    percents: &Vec<i64>,
    growth_percentage: String,
) -> (output: Option<Output>)
    requires
        today.is_valid(),
        data.days@.len() <= i64::MAX,
        summarizes(totals.entries@, all_edges(data.repositories@)),
        percents@.len() == totals.entries@.len(),
    ensures
        output is Some <==> card_totals_fit(*data, today),
        output matches Some(out) ==> {
            &&& out.hero == hero_spec(*data)
            &&& views(out.pinned@) == pinned_cards(
                config.pinned_topics(),
                data.pinned@,
                config.pinned@.len() as int,
            )
            &&& out.chronicle.total_contribution_volume == data.current_year_total
            &&& out.chronicle.growth_percentage@ == growth_percentage@
            &&& views(out.chronicle.languages@) == top_shares(
                language_shares(totals.entries@, percents@),
            )
            &&& match out.chronicle.most_used_language {
                Some(first) => top_shares(language_shares(totals.entries@, percents@)).len() > 0
                    && first@ == top_shares(language_shares(totals.entries@, percents@))[0],
                None => top_shares(language_shares(totals.entries@, percents@)).len() == 0,
            }
            &&& out.chronicle.current_streak == current_streak_spec(data.days@, date_text(today))
            &&& out.chronicle.peak_activity_day@ == peak_day_spec(data.days@, date_text(today))
            &&& views(out.chronicle.top_activities@) == top_activities_spec(data.days@)
            &&& out.chronicle.monthly_focus@ == focus_name(data.contributions@, today.month - 1)
            &&& out.chronicle.monthly_focus_html@ == focus_html(
                data.contributions@,
                today.month - 1,
                long_month_name(today.month as int),
            )
            &&& out.chronicle.most_productive_day@ == weekday_name(
                best_weekday_spec(
                    weekday_totals_spec(data.days@, today.month - 1),
                    weekday_of(today),
                ),
            )
            &&& views(out.chronicle.stack@) == config.stack_names()
            &&& views(out.chronicle.stats.timeline@) == timeline_spec(data.days@)
            &&& forall|t: int|
                0 <= t < out.chronicle.languages@.len() ==> {
                    let s = #[trigger] out.chronicle.languages@[t];
                    &&& has_name(all_edges(data.repositories@), s.name@)
                    &&& s.color@ == first_color(all_edges(data.repositories@), s.name@)
                }
            &&& out.chronicle.stats.timeline@.len() == data.days@.len()
            &&& forall|k: int|
                0 <= k < data.days@.len() ==> {
                    let p = #[trigger] out.chronicle.stats.timeline@[k];
                    &&& p.date@ == data.days@[k].date@
                    &&& p.count == data.days@[k].count
                }
        },
{
    let month0: i64 = (today.month as i64) - 1;
    let hero = match hero(data) {
        Some(h) => h,
        None => return None,
    };
    let per_weekday = match weekday_totals(&data.days, month0) {
        Some(t) => t,
        None => return None,
    };
    let month_name = format_month_name(today);
    let (focus, focus_text) = match monthly_focus(&data.contributions, month0, month_name.as_str()) {
        Some(f) => f,
        None => return None,
    };
    let pinned = pinned_outs(config, &data.pinned);
    let ghost shares = language_shares(totals.entries@, percents@);
    let mut languages: Vec<LanguageStat> = Vec::new();
    let mut k: usize = 0;
    while k < percents.len()
        invariant
            k <= percents@.len(),
            percents@.len() == totals.entries@.len(),
            shares == language_shares(totals.entries@, percents@),
            languages@.len() == k,
            languages@.map_values(|l: LanguageStat| l@) == shares.take(k as int),
        decreases percents@.len() - k,
    {
        let entry = &totals.entries[k];
        let ghost before = languages@;
        languages.push(
            LanguageStat { name: entry.name.clone(), percent: percents[k], color: entry.color.clone() },
        );
        assert forall|j: int| 0 <= j <= k implies languages@[j]@ == shares[j] by {
            if j < k {
                assert(languages@[j] == before[j]);
                assert(before.map_values(|l: LanguageStat| l@)[j] == shares.take(k as int)[j]);
            }
        }
        assert(languages@.map_values(|l: LanguageStat| l@) =~= shares.take(k + 1));
        k = k + 1;
    }
    assert(shares.take(k as int) =~= shares);
    proof {
        lemma_top_languages_of_views(languages@, shares);
    }
    let ranked = rank_languages(&languages);
    let most_used_language = if ranked.len() > 0 {
        Some(
            LanguageStat {
                name: ranked[0].name.clone(),
                percent: ranked[0].percent,
                color: ranked[0].color.clone(),
            },
        )
    } else {
        None
    };
    proof {
        if ranked@.len() > 0 {
            assert(ranked@.map_values(|l: LanguageStat| l@)[0] == ranked@[0]@);
        }
    }
    let today_str = format_ymd(today);
    let streak = current_streak(&data.days, today_str.as_str());
    let (peak_activity_day, top_activities) = busiest_days(&data.days, today_str.as_str());
    let fallback = weekday_from_sunday(today) as usize;
    let best = best_weekday(&per_weekday, fallback);
    assert(views(top_activities@) =~= top_activities@.map_values(|p: DayPoint| p@));
    assert(views(ranked@) =~= ranked@.map_values(|l: LanguageStat| l@));
    let points = timeline(&data.days);
    proof {
        assert forall|t: int| 0 <= t < ranked@.len() implies {
            let s = #[trigger] ranked@[t];
            &&& has_name(all_edges(data.repositories@), s.name@)
            &&& s.color@ == first_color(all_edges(data.repositories@), s.name@)
        } by {
            assert(views(ranked@)[t] == ranked@[t]@);
            law_language_share_colors(
                totals.entries@,
                all_edges(data.repositories@),
                percents@,
                t,
            );
        }
        assert(views(points@).len() == points@.len());
        assert(timeline_spec(data.days@).len() == data.days@.len());
        assert forall|k: int| 0 <= k < data.days@.len() implies {
            let p = #[trigger] points@[k];
            &&& p.date@ == data.days@[k].date@
            &&& p.count == data.days@[k].count
        } by {
            assert(views(points@)[k] == points@[k]@);
            law_timeline_keeps_each_day(data.days@, k);
        }
    }
    let chronicle = Chronicle {
        total_contribution_volume: data.current_year_total,
        growth_percentage,
        most_used_language,
        current_streak: streak,
        peak_activity_day,
        top_activities,
        monthly_focus: focus,
        monthly_focus_html: focus_text,
        most_productive_day: weekday_name_text(best).to_owned(),
        languages: ranked,
        stack: stack_strings(config),
        stats: TimelineStats { timeline: points },
    };
    Some(Output { hero, pinned, chronicle })
}

} // verus!
