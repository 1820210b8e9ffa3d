use profile_svg::calendar::{calendar_date, day_zero, month_start, query_window, CalendarDate};
use profile_svg::config::profile_config;
use profile_svg::query::{build_query, errors_are_fatal, GraphqlError};

fn date(year: i32, month: u32, day: u32) -> CalendarDate {
    CalendarDate { year, month, day }
}

#[test]
fn month_start_within_year() {
    assert_eq!(month_start(2024, 0), date(2024, 1, 1));
    assert_eq!(month_start(2024, 11), date(2024, 12, 1));
}

#[test]
fn month_start_rolls_over_like_js_date() {
    assert_eq!(month_start(2024, 12), date(2025, 1, 1));
    assert_eq!(month_start(2024, 25), date(2026, 2, 1));
    assert_eq!(month_start(2024, -1), date(2023, 12, 1));
    assert_eq!(month_start(2024, -13), date(2022, 12, 1));
    assert_eq!(month_start(2024, 13), month_start(2025, 1));
}

#[test]
fn day_zero_is_last_day_of_previous_month() {
    assert_eq!(day_zero(2024, 2), date(2024, 2, 29));
    assert_eq!(day_zero(2023, 2), date(2023, 2, 28));
    assert_eq!(day_zero(2024, 0), date(2023, 12, 31));
    assert_eq!(day_zero(2024, 4), date(2024, 4, 30));
    assert_eq!(day_zero(2000, 2), date(2000, 2, 29));
    assert_eq!(day_zero(1900, 2), date(1900, 2, 28));
}

#[test]
fn query_window_texts() {
    let w = query_window(date(2025, 6, 14), 9, 5, 7, 123_456_789);
    assert_eq!(w.current_year_end, "2025-06-14T09:05:07.123Z");
    assert_eq!(w.current_year_start, "2024-07-01T00:00:00.000Z");
    assert_eq!(w.last_year_start, "2023-07-01T00:00:00.000Z");
    assert_eq!(w.last_year_end, "2024-06-30T00:00:00.000Z");
}

#[test]
fn query_window_in_december_rolls_into_next_year() {
    let w = query_window(date(2025, 12, 31), 23, 59, 59, 1_999_000_000);
    assert_eq!(w.current_year_end, "2025-12-31T23:59:59.999Z");
    assert_eq!(w.current_year_start, "2025-01-01T00:00:00.000Z");
    assert_eq!(w.last_year_start, "2024-01-01T00:00:00.000Z");
    assert_eq!(w.last_year_end, "2024-12-31T00:00:00.000Z");
}

#[test]
fn profile_config_has_six_featured_slots() {
    let config = profile_config();
    assert_eq!(config.username, "msalmanrafadhlih");
    assert_eq!(config.pinned.len(), 6);
    assert_eq!(config.pinned[0].name, "nixos-development-templates");
    assert_eq!(config.pinned[5].topic, "TODO: topic 6");
    assert_eq!(config.stack, vec!["NixOS", "Rust", "Nix"]);
}

fn expected_query(names: &[&str]) -> String {
    let pinned: String = names
        .iter()
        .enumerate()
        .map(|(index, name)| {
            format!(
                r#"
  repo{index}: repository(owner: $username, name: "{name}") {{
    name
    description
    stargazerCount
    primaryLanguage {{
      name
      color
    }}
    watchers {{
      totalCount
    }}
    url
  }}
"#
            )
        })
        .collect();
    format!(
        r#"
  query($username: String!, $currentYearStart: DateTime!, $currentYearEnd: DateTime!, $lastYearStart: DateTime!, $lastYearEnd: DateTime!) {{
    user(login: $username) {{
      name
      bio
      followers {{
        totalCount
      }}
      issues(states: OPEN) {{
        totalCount
      }}
      repositories(first: 100, ownerAffiliations: OWNER, isFork: false, orderBy: {{field: STARGAZERS, direction: DESC}}) {{
        totalCount
        nodes {{
          name
          stargazerCount
          primaryLanguage {{
            name
            color
          }}
          languages(first: 10, orderBy: {{field: SIZE, direction: DESC}}) {{
            edges {{
              size
              node {{
                name
                color
              }}
            }}
          }}
        }}
      }}
      currentYear: contributionsCollection(from: $currentYearStart, to: $currentYearEnd) {{
        contributionCalendar {{
          totalContributions
          weeks {{
            contributionDays {{
              contributionCount
              date
              weekday
            }}
          }}
        }}
        commitContributionsByRepository(maxRepositories: 100) {{
          repository {{
            name
            primaryLanguage {{
              name
            }}
          }}
          contributions(first: 100) {{
            nodes {{
              occurredAt
              commitCount
            }}
          }}
        }}
      }}
      lastYear: contributionsCollection(from: $lastYearStart, to: $lastYearEnd) {{
        contributionCalendar {{
          totalContributions
        }}
      }}
    }}
    {pinned}
  }}
"#
    )
}

#[test]
fn build_query_matches_graphql_text() {
    let config = profile_config();
    let query = build_query(&config);
    let names: Vec<&str> = config.pinned.iter().map(|p| p.name).collect();
    assert_eq!(query, expected_query(&names));
    assert!(query.contains("repo5: repository(owner: $username, name: \"TODO-repo-6\")"));
}

#[test]
fn build_query_without_featured_repositories() {
    let mut config = profile_config();
    config.pinned.clear();
    assert_eq!(build_query(&config), expected_query(&[]));
}

#[test]
fn calendar_date_checks_existence() {
    assert_eq!(calendar_date(2024, 2, 29), Some(date(2024, 2, 29)));
    assert_eq!(calendar_date(2023, 2, 29), None);
    assert_eq!(calendar_date(2024, 13, 1), None);
    assert_eq!(calendar_date(262143, 1, 1), None);
    assert_eq!(calendar_date(-4, 2, 29), Some(date(-4, 2, 29)));
}

#[test]
fn query_window_at_the_earliest_year() {
    let w = query_window(date(-262142, 12, 1), 0, 0, 0, 0);
    assert_eq!(w.current_year_start, "-262142-01-01T00:00:00.000Z");
    assert_eq!(w.last_year_start, "-262143-01-01T00:00:00.000Z");
    assert_eq!(w.last_year_end, "-262143-12-31T00:00:00.000Z");
}

#[test]
fn month_starts_are_28_to_31_days_apart() {
    for index in -30..30 {
        let a = month_start(2023, index);
        let b = month_start(2023, index + 1);
        let da = chrono::NaiveDate::from_ymd_opt(a.year, a.month, a.day).unwrap();
        let db = chrono::NaiveDate::from_ymd_opt(b.year, b.month, b.day).unwrap();
        let days = (db - da).num_days();
        assert!((28..=31).contains(&days), "{index}: {days}");
    }
}

#[test]
fn iso_texts_are_24_characters_and_parse_back() {
    let w = query_window(date(2025, 2, 10), 0, 0, 0, 0);
    for text in [&w.current_year_start, &w.last_year_start, &w.last_year_end] {
        assert_eq!(text.len(), 24);
        let parsed = chrono::NaiveDateTime::parse_from_str(text, "%Y-%m-%dT%H:%M:%S%.3fZ").unwrap();
        assert_eq!(parsed.format("%Y-%m-%dT%H:%M:%S%.3fZ").to_string(), *text);
    }
    assert_eq!(w.last_year_end, "2024-02-29T00:00:00.000Z");
}

fn error(path: Option<&str>, kind: Option<&str>) -> GraphqlError {
    GraphqlError { path_head: path.map(str::to_string), kind: kind.map(str::to_string) }
}

#[test]
fn graphql_errors_only_missing_featured_repositories_pass() {
    let missing = |p: &str| error(Some(p), Some("NOT_FOUND"));
    assert!(errors_are_fatal(&vec![], 6));
    assert!(!errors_are_fatal(&vec![missing("repo1"), missing("repo5")], 6));
    assert!(errors_are_fatal(&vec![missing("repo1"), missing("repo6")], 6));
    assert!(errors_are_fatal(&vec![missing("user")], 6));
    assert!(errors_are_fatal(&vec![missing("repo01")], 6));
    assert!(errors_are_fatal(&vec![error(None, Some("NOT_FOUND"))], 6));
    assert!(errors_are_fatal(&vec![error(Some("repo2"), Some("FORBIDDEN"))], 6));
    assert!(errors_are_fatal(&vec![error(Some("repo2"), None)], 6));
}
