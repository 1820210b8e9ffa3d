use profile_svg::activity::{
    best_weekday, busiest_days, current_streak, format_parsed_date, format_short_date, streak_back_from, today_index,
    weekday_name_text, weekday_totals,
};
use profile_svg::calendar::CalendarDate;
use profile_svg::config::profile_config;
use profile_svg::focus::{
    get_activity_type, monthly_focus, occurrence_month, repo_commit_counts, repo_language,
};
use profile_svg::languages::{aggregate_languages, rank_languages, LanguageTotals};
use profile_svg::page::inject_profile_data;
use profile_svg::text::str_eq;
use profile_svg::stats::{
    generate_stats, hero, pinned_outs, total_stars, CommitOccurrence, ContributionDay,
    LanguageEdge, LanguageStat, PinnedRepoData, ProfileData, RepoContributions, RepoNode,
};

fn day(date: &str, count: i64, weekday: i64) -> ContributionDay {
    ContributionDay { date: date.to_string(), count, weekday }
}

fn edge(name: &str, size: i64, color: &str) -> LanguageEdge {
    LanguageEdge { size, name: name.to_string(), color: color.to_string() }
}

fn repo(stars: i64, languages: Vec<LanguageEdge>) -> RepoNode {
    RepoNode { stargazer_count: stars, languages }
}

fn stat(name: &str, percent: i64) -> LanguageStat {
    LanguageStat { name: name.to_string(), percent, color: format!("#{name}") }
}

fn commits(name: &str, language: Option<&str>, stamps: &[(&str, i64)]) -> RepoContributions {
    RepoContributions {
        repo_name: name.to_string(),
        primary_language: language.map(|l| l.to_string()),
        occurrences: stamps
            .iter()
            .map(|(s, c)| CommitOccurrence { occurred_at: s.to_string(), commit_count: *c })
            .collect(),
    }
}

fn empty_data() -> ProfileData {
    ProfileData {
        total_repos: 0,
        followers: 0,
        open_issues: 0,
        repositories: vec![],
        pinned: vec![],
        current_year_total: 0,
        last_year_total: 0,
        days: vec![],
        contributions: vec![],
    }
}

fn no_languages() -> LanguageTotals {
    LanguageTotals { entries: vec![], total_size: 0 }
}

#[test]
fn total_stars_sums_all_repositories() {
    let repos = vec![repo(3, vec![]), repo(0, vec![]), repo(40, vec![])];
    assert_eq!(total_stars(&repos), Some(43));
    assert_eq!(total_stars(&vec![]), Some(0));
}

#[test]
fn hero_copies_counts() {
    let mut data = empty_data();
    data.total_repos = 12;
    data.followers = 7;
    data.open_issues = 2;
    data.repositories = vec![repo(5, vec![]), repo(6, vec![])];
    let h = hero(&data).unwrap();
    assert_eq!((h.total_repos, h.total_stars, h.total_followers, h.total_issues), (12, 11, 7, 2));
}

#[test]
fn pinned_outs_skip_missing_and_fill_defaults() {
    let config = profile_config();
    let with_language = PinnedRepoData {
        name: "alpha".to_string(),
        description: Some("first".to_string()),
        language: Some("Rust".to_string()),
        language_color: Some("#dea584".to_string()),
        stargazer_count: 9,
        watchers: 2,
        url: "https://example.org/alpha".to_string(),
    };
    let without_language = PinnedRepoData {
        name: "beta".to_string(),
        description: None,
        language: None,
        language_color: None,
        stargazer_count: 0,
        watchers: 1,
        url: "https://example.org/beta".to_string(),
    };
    let cards = pinned_outs(&config, &vec![Some(with_language), None, Some(without_language)]);
    assert_eq!(cards.len(), 2);
    assert_eq!(cards[0].title, "alpha");
    assert_eq!(cards[0].description.as_deref(), Some("first"));
    assert_eq!(cards[0].language, "Rust");
    assert_eq!(cards[0].language_color, "#dea584");
    assert_eq!((cards[0].stars, cards[0].watches), (9, 2));
    assert_eq!(cards[0].topic, "TODO: topic 1");
    assert_eq!(cards[1].title, "beta");
    assert_eq!(cards[1].description, None);
    assert_eq!(cards[1].language, "N/A");
    assert_eq!(cards[1].language_color, "#ccc");
    assert_eq!(cards[1].url, "https://example.org/beta");
    assert_eq!(cards[1].topic, "TODO: topic 3");
}

#[test]
fn aggregate_languages_sums_in_byte_order() {
    let repos = vec![
        repo(0, vec![edge("Rust", 100, "#dea584"), edge("C", 10, "#555555")]),
        repo(0, vec![edge("C++", 5, "#f34b7d"), edge("Rust", 50, "#000000")]),
        repo(0, vec![]),
        repo(0, vec![edge("rust", 1, "#111111"), edge("Ångström", 2, "#222222")]),
    ];
    let totals = aggregate_languages(&repos).unwrap();
    let names: Vec<&str> = totals.entries.iter().map(|e| e.name.as_str()).collect();
    assert_eq!(names, vec!["C", "C++", "Rust", "rust", "Ångström"]);
    let sizes: Vec<i64> = totals.entries.iter().map(|e| e.size).collect();
    assert_eq!(sizes, vec![10, 5, 150, 1, 2]);
    assert_eq!(totals.entries[2].color, "#dea584");
    assert_eq!(totals.total_size, 168);
}

#[test]
fn aggregate_languages_of_nothing() {
    let totals = aggregate_languages(&vec![repo(1, vec![])]).unwrap();
    assert!(totals.entries.is_empty());
    assert_eq!(totals.total_size, 0);
}

#[test]
fn rank_languages_keeps_five_highest_stably() {
    let stats = vec![
        stat("A", 10),
        stat("B", 30),
        stat("C", 10),
        stat("D", 5),
        stat("E", 30),
        stat("F", 10),
        stat("G", 0),
    ];
    let ranked = rank_languages(&stats);
    let names: Vec<&str> = ranked.iter().map(|s| s.name.as_str()).collect();
    assert_eq!(names, vec!["B", "E", "A", "C", "F"]);
    assert_eq!(ranked[0].color, "#B");
    assert_eq!(ranked[0].percent, 30);
}

#[test]
fn rank_languages_with_few() {
    let ranked = rank_languages(&vec![stat("X", 1), stat("Y", 2)]);
    let names: Vec<&str> = ranked.iter().map(|s| s.name.as_str()).collect();
    assert_eq!(names, vec!["Y", "X"]);
    assert!(rank_languages(&vec![]).is_empty());
}

#[test]
fn today_index_finds_first_or_falls_back_to_last() {
    let days = vec![day("2024-03-01", 1, 5), day("2024-03-02", 0, 6), day("2024-03-02", 4, 6)];
    assert_eq!(today_index(&days, "2024-03-02"), Some(1));
    assert_eq!(today_index(&days, "2024-03-09"), Some(2));
    assert_eq!(today_index(&vec![], "2024-03-09"), None);
}

#[test]
fn streak_counts_consecutive_active_days() {
    let days = vec![
        day("2024-03-01", 3, 5),
        day("2024-03-02", 0, 6),
        day("2024-03-03", 2, 0),
        day("2024-03-04", 1, 1),
        day("2024-03-05", 5, 2),
    ];
    assert_eq!(current_streak(&days, "2024-03-05"), 3);
    assert_eq!(current_streak(&days, "2024-03-02"), 1);
    assert_eq!(streak_back_from(&days, 0), 1);
}

#[test]
fn streak_today_without_contributions_does_not_break() {
    let days = vec![day("2024-03-01", 2, 5), day("2024-03-02", 4, 6), day("2024-03-03", 0, 0)];
    assert_eq!(current_streak(&days, "2024-03-03"), 2);
}

#[test]
fn streak_negative_today_or_empty_is_zero() {
    let days = vec![day("2024-03-01", 2, 5), day("2024-03-02", -1, 6)];
    assert_eq!(current_streak(&days, "2024-03-02"), 0);
    assert_eq!(current_streak(&vec![], "2024-03-02"), 0);
}

#[test]
fn short_dates() {
    assert_eq!(format_short_date("2024-03-05"), "Mar 5");
    assert_eq!(format_short_date("2023-12-25"), "Dec 25");
    assert_eq!(format_short_date("not a date"), "not a date");
    assert_eq!(format_short_date("2023-02-30"), "2023-02-30");
}

#[test]
fn busiest_days_peak_and_top_three_stable() {
    let days = vec![
        day("2024-01-01", 2, 1),
        day("2024-01-02", 7, 2),
        day("2024-01-03", 7, 3),
        day("2024-01-04", 1, 4),
        day("2024-01-05", 2, 5),
    ];
    let (peak, top) = busiest_days(&days, "2024-01-09");
    assert_eq!((peak.date.as_str(), peak.count), ("Jan 2", 7));
    let top: Vec<(String, i64)> = top.into_iter().map(|d| (d.date, d.count)).collect();
    assert_eq!(
        top,
        vec![("Jan 2".to_string(), 7), ("Jan 3".to_string(), 7), ("Jan 1".to_string(), 2)]
    );
}

#[test]
fn busiest_days_without_days_use_today() {
    let (peak, top) = busiest_days(&vec![], "2024-06-09");
    assert_eq!((peak.date.as_str(), peak.count), ("Jun 9", 0));
    assert!(top.is_empty());
}

#[test]
fn weekday_totals_of_current_month() {
    let days = vec![
        day("2024-02-28", 9, 3),
        day("2024-03-01", 2, 5),
        day("2024-03-08", 3, 5),
        day("2024-03-03", 4, 0),
        day("2024-03-04", 1, 9),
        day("bad", 50, 1),
    ];
    let totals = weekday_totals(&days, 2).unwrap();
    assert_eq!(totals, vec![4, 0, 0, 0, 0, 5, 1]);
    assert_eq!(best_weekday(&totals, 3), 5);
    assert_eq!(weekday_name_text(5), "Friday");
}

#[test]
fn best_weekday_prefers_first_and_falls_back() {
    assert_eq!(best_weekday(&vec![0, 4, 0, 4, 0, 0, 0], 6), 1);
    assert_eq!(best_weekday(&vec![0, 0, 0, 0, 0, 0, 0], 6), 0);
    assert_eq!(best_weekday(&vec![-2, -3, -1, -5, -9, -1, -4], 4), 4);
}

#[test]
fn occurrence_month_reads_year_and_month() {
    assert_eq!(occurrence_month("2024-03-15T10:20:00Z"), Some(2));
    assert_eq!(occurrence_month("2024-12"), Some(11));
    assert_eq!(occurrence_month("2024"), None);
    assert_eq!(occurrence_month("2024-13-01"), None);
    assert_eq!(occurrence_month("2024-0é-01"), None);
}

#[test]
fn repo_commit_counts_in_first_seen_order() {
    let contribs = vec![
        commits("beta", Some("Go"), &[("2024-03-02T00:00:00Z", 2), ("2024-02-02T00:00:00Z", 9)]),
        commits("alpha", None, &[("2024-02-10T00:00:00Z", 4)]),
        commits("gamma", Some("Nix"), &[("2024-03-05T00:00:00Z", 5)]),
        commits("beta", None, &[("2024-03-09T00:00:00Z", 3)]),
    ];
    let (names, totals) = repo_commit_counts(&contribs, 2).unwrap();
    assert_eq!(names, vec!["beta".to_string(), "gamma".to_string()]);
    assert_eq!(totals, vec![5, 5]);
}

#[test]
fn activity_types() {
    assert_eq!(get_activity_type(None), "general development");
    assert_eq!(get_activity_type(Some("Rust")), "systems programming");
    assert_eq!(get_activity_type(Some("Go")), "backend services");
    assert_eq!(get_activity_type(Some("TypeScript")), "application development");
    assert_eq!(get_activity_type(Some("JavaScript")), "interactive interfaces");
    assert_eq!(get_activity_type(Some("Python")), "data processing");
    assert_eq!(get_activity_type(Some("Lua")), "configuration & scripting");
    assert_eq!(get_activity_type(Some("Nix")), "reproducible infrastructure");
    assert_eq!(get_activity_type(Some("HTML")), "structure & layout");
    assert_eq!(get_activity_type(Some("CSS")), "visual styling");
    assert_eq!(get_activity_type(Some("C++")), "performance engineering");
    assert_eq!(get_activity_type(Some("C")), "low-level system logic");
    assert_eq!(get_activity_type(Some("Shell")), "automation scripts");
    assert_eq!(get_activity_type(Some("rust")), "coding activity");
}

#[test]
fn repo_language_last_record_wins() {
    let contribs = vec![
        commits("beta", Some("Go"), &[]),
        commits("alpha", Some("C"), &[]),
        commits("beta", Some("Rust"), &[]),
        commits("beta", None, &[]),
    ];
    assert_eq!(repo_language(&contribs, "beta"), Some("Rust".to_string()));
    assert_eq!(repo_language(&contribs, "alpha"), Some("C".to_string()));
    assert_eq!(repo_language(&contribs, "delta"), None);
}

#[test]
fn monthly_focus_sentence() {
    let contribs = vec![
        commits("beta", Some("Go"), &[("2024-03-02T00:00:00Z", 2)]),
        commits("gamma", Some("Nix"), &[("2024-03-05T00:00:00Z", 5)]),
    ];
    let (focus, html) = monthly_focus(&contribs, 2, "March").unwrap();
    assert_eq!(focus, "gamma");
    assert_eq!(
        html,
        r#"March saw a significant shift towards reproducible infrastructure, with heavy activity in <span class="text-accent font-medium">Nix</span> configurations for the <span class="text-accent font-medium">gamma</span> setup."#
    );
}

#[test]
fn monthly_focus_without_language_or_commits() {
    let contribs = vec![commits("solo", None, &[("2024-03-02T00:00:00Z", 1)])];
    let (focus, html) = monthly_focus(&contribs, 2, "March").unwrap();
    assert_eq!(focus, "solo");
    assert_eq!(
        html,
        r#"March saw a significant shift towards general development, with heavy activity in <span class="text-accent font-medium">Code</span> configurations for the <span class="text-accent font-medium">solo</span> setup."#
    );
    let (focus, html) = monthly_focus(&contribs, 3, "April").unwrap();
    assert_eq!(focus, "Research");
    assert_eq!(html, "Structuring <b>ideas</b> into reality.");
}

#[test]
fn generate_stats_assembles_the_card() {
    let config = profile_config();
    let mut data = empty_data();
    data.total_repos = 2;
    data.followers = 10;
    data.open_issues = 1;
    data.repositories = vec![
        repo(4, vec![edge("Rust", 3, "#dea584"), edge("Nix", 2, "#7e7eff")]),
        repo(1, vec![]),
    ];
    data.current_year_total = 120;
    data.last_year_total = 100;
    data.days = vec![
        day("2024-03-01", 2, 5),
        day("2024-03-02", 6, 6),
        day("2024-03-03", 1, 0),
    ];
    data.contributions = vec![commits("beta", Some("Go"), &[("2024-03-02T00:00:00Z", 2)])];
    let totals = aggregate_languages(&data.repositories).unwrap();
    let percents = vec![40, 60];
    let today = CalendarDate { year: 2024, month: 3, day: 3 };
    let out =
        generate_stats(&config, &data, today, &totals, &percents, "20.0%".to_string()).unwrap();
    assert_eq!(out.hero.total_stars, 5);
    assert!(out.pinned.is_empty());
    let c = &out.chronicle;
    assert_eq!(c.total_contribution_volume, 120);
    assert_eq!(c.growth_percentage, "20.0%");
    assert_eq!(c.most_used_language.as_ref().map(|l| l.name.as_str()), Some("Rust"));
    assert_eq!(c.languages.len(), 2);
    assert_eq!(c.languages[0].color, "#dea584");
    assert_eq!((c.languages[1].name.as_str(), c.languages[1].percent), ("Nix", 40));
    assert_eq!(c.current_streak, 3);
    assert_eq!((c.peak_activity_day.date.as_str(), c.peak_activity_day.count), ("Mar 2", 6));
    assert_eq!(c.top_activities.len(), 3);
    assert_eq!(c.monthly_focus, "beta");
    assert!(c.monthly_focus_html.starts_with("March saw a significant shift towards backend services"));
    assert_eq!(c.most_productive_day, "Saturday");
    assert_eq!(c.stack, vec!["NixOS".to_string(), "Rust".to_string(), "Nix".to_string()]);
    assert_eq!(c.stats.timeline.len(), 3);
    assert_eq!(c.stats.timeline[1].date, "2024-03-02");
}

#[test]
fn generate_stats_without_activity_uses_today() {
    let config = profile_config();
    let data = empty_data();
    let today = CalendarDate { year: 2024, month: 3, day: 3 };
    let out = generate_stats(&config, &data, today, &no_languages(), &vec![], "0.0%".to_string()).unwrap();
    let c = &out.chronicle;
    assert!(c.most_used_language.is_none());
    assert_eq!(c.current_streak, 0);
    assert_eq!((c.peak_activity_day.date.as_str(), c.peak_activity_day.count), ("Mar 3", 0));
    assert_eq!(c.monthly_focus, "Research");
    assert_eq!(c.most_productive_day, "Sunday");
}

#[test]
fn overflowing_totals_are_refused() {
    assert_eq!(total_stars(&vec![repo(i64::MAX, vec![]), repo(1, vec![])]), None);
    assert_eq!(total_stars(&vec![repo(i64::MAX, vec![]), repo(-1, vec![]), repo(1, vec![])]), Some(i64::MAX));
    let edges = vec![repo(0, vec![edge("Rust", i64::MAX, "#1"), edge("C", 1, "#2")])];
    assert!(aggregate_languages(&edges).is_none());
    let days = vec![day("2024-03-01", i64::MAX, 5), day("2024-03-08", 1, 5)];
    assert!(weekday_totals(&days, 2).is_none());
    assert!(weekday_totals(&days, 3).is_some());
    let contribs = vec![commits("a", None, &[("2024-03-01", i64::MAX), ("2024-03-02", 1)])];
    assert!(repo_commit_counts(&contribs, 2).is_none());
    assert!(monthly_focus(&contribs, 2, "March").is_none());
    let mut data = empty_data();
    data.repositories = vec![repo(i64::MAX, vec![]), repo(i64::MAX, vec![])];
    let today = CalendarDate { year: 2024, month: 3, day: 3 };
    assert!(generate_stats(&profile_config(), &data, today, &no_languages(), &vec![], String::new()).is_none());
}

#[test]
fn inject_profile_data_before_first_head_close() {
    let page = inject_profile_data("<html><head><title>é</title></head><body></head></body>", "{\"a\":1}");
    assert_eq!(
        page.as_deref(),
        Some("<html><head><title>é</title><script>window.profileData = {\"a\":1};</script>\n</head><body></head></body>")
    );
    assert_eq!(inject_profile_data("<html><body></body></html>", "{}"), None);
    assert_eq!(inject_profile_data("</head", "{}"), None);
    assert_eq!(inject_profile_data("</head>", "x").as_deref(), Some("<script>window.profileData = x;</script>\n</head>"));
}

#[test]
fn generate_stats_falls_back_to_today_weekday() {
    let config = profile_config();
    let mut data = empty_data();
    data.days = (0..7)
        .map(|w| day(&format!("2024-03-{:02}", 3 + w), -1, w as i64))
        .collect();
    let today = CalendarDate { year: 2024, month: 3, day: 6 };
    let out = generate_stats(&config, &data, today, &no_languages(), &vec![], String::new()).unwrap();
    assert_eq!(out.chronicle.most_productive_day, "Wednesday");
}

#[test]
fn format_parsed_date_uses_the_parse() {
    let d = CalendarDate { year: 2024, month: 11, day: 30 };
    assert_eq!(format_parsed_date(Some(d), "ignored"), "Nov 30");
    assert_eq!(format_parsed_date(None, "2024-11-30"), "2024-11-30");
}

#[test]
fn str_eq_compares_characters() {
    assert!(str_eq("", ""));
    assert!(str_eq("Ångström", "Ångström"));
    assert!(!str_eq("Rust", "rust"));
    assert!(!str_eq("Rust", "Rus"));
}
