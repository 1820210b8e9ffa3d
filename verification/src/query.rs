//! The GraphQL query that fetches the account's figures in one request.

use vstd::prelude::*;
use vstd::string::*;

use crate::config::Config;
use crate::stats::opt_text;
use crate::text::{decimal, push_decimal, str_eq};

verus! {

/// The query up to the place of the featured repositories.
pub open spec fn query_head() -> Seq<char> {
    r#"
  query($username: String!, $currentYearStart: DateTime!, $currentYearEnd: DateTime!, $lastYearStart: DateTime!, $lastYearEnd: DateTime!) {
    user(login: $username) {
      name
      bio
      followers {
        totalCount
      }
      issues(states: OPEN) {
        totalCount
      }
      repositories(first: 100, ownerAffiliations: OWNER, isFork: false, orderBy: {field: STARGAZERS, direction: DESC}) {
        totalCount
        nodes {
          name
          stargazerCount
          primaryLanguage {
            name
            color
          }
          languages(first: 10, orderBy: {field: SIZE, direction: DESC}) {
            edges {
              size
              node {
                name
                color
              }
            }
          }
        }
      }
      currentYear: contributionsCollection(from: $currentYearStart, to: $currentYearEnd) {
        contributionCalendar {
          totalContributions
          weeks {
            contributionDays {
              contributionCount
              date
              weekday
            }
          }
        }
        commitContributionsByRepository(maxRepositories: 100) {
          repository {
            name
            primaryLanguage {
              name
            }
          }
          contributions(first: 100) {
            nodes {
              occurredAt
              commitCount
            }
          }
        }
      }
      lastYear: contributionsCollection(from: $lastYearStart, to: $lastYearEnd) {
        contributionCalendar {
          totalContributions
        }
      }
    }
    "#@
}

/// The text that opens the fragment of a featured repository, before its index.
pub open spec fn fragment_open() -> Seq<char> {
    "\n  repo"@
}

/// The text between a fragment's index and the repository's name.
pub open spec fn fragment_middle() -> Seq<char> {
    r#": repository(owner: $username, name: ""#@
}

/// The text that closes the fragment of a featured repository.
pub open spec fn fragment_close() -> Seq<char> {
    r#"") {
    name
    description
    stargazerCount
    primaryLanguage {
      name
      color
    }
    watchers {
      totalCount
    }
    url
  }
"#@
}

/// The text that closes the query.
pub open spec fn query_tail() -> Seq<char> {
    "\n  }\n"@
}

/// The fragment that fetches the featured repository `name` as `repo{index}`.
pub open spec fn pinned_fragment(index: nat, name: Seq<char>) -> Seq<char> {
    fragment_open() + decimal(index) + fragment_middle() + name + fragment_close()
}

/// The fragments of the featured repositories, in order.
pub open spec fn pinned_fragments(names: Seq<Seq<char>>) -> Seq<char>
    decreases names.len(),
{
    if names.len() == 0 {
        Seq::empty()
    } else {
        pinned_fragments(names.drop_last()) + pinned_fragment(
            (names.len() - 1) as nat,
            names.last(),
        )
    }
}

/// The whole query for the featured repositories `names`.
pub open spec fn query_text(names: Seq<Seq<char>>) -> Seq<char> {
    query_head() + pinned_fragments(names) + query_tail()
}

/// The GraphQL query for the account's figures and for each featured
/// repository of `config`, in order, under the aliases `repo0`, `repo1`, ...
pub fn build_query(config: &Config) -> (query: String)
    ensures
        query@ == query_text(config.pinned_names()),
{
    let ghost names = config.pinned_names();
    let mut pinned_repos_query = String::new();
    let mut index: usize = 0;
    while index < config.pinned.len()
        invariant
            index <= config.pinned@.len(),
            names == config.pinned_names(),
            names.len() == config.pinned@.len(),
            pinned_repos_query@ == pinned_fragments(names.take(index as int)),
        decreases config.pinned@.len() - index,
    {
        let ghost before = pinned_repos_query@;
        pinned_repos_query.append("\n  repo");
        push_decimal(&mut pinned_repos_query, index as u64);
        pinned_repos_query.append(r#": repository(owner: $username, name: ""#);
        pinned_repos_query.append(config.pinned[index].name);
        pinned_repos_query.append(r#"") {
    name
    description
    stargazerCount
    primaryLanguage {
      name
      color
    }
    watchers {
      totalCount
    }
    url
  }
"#);
        assert(names.take(index + 1).drop_last() =~= names.take(index as int));
        assert(pinned_repos_query@ =~= before + pinned_fragment(index as nat, names[index as int]));
        index = index + 1;
    }
    assert(names.take(index as int) =~= names);
    let mut query = String::new();
    query.append(r#"
  query($username: String!, $currentYearStart: DateTime!, $currentYearEnd: DateTime!, $lastYearStart: DateTime!, $lastYearEnd: DateTime!) {
    user(login: $username) {
      name
      bio
      followers {
        totalCount
      }
      issues(states: OPEN) {
        totalCount
      }
      repositories(first: 100, ownerAffiliations: OWNER, isFork: false, orderBy: {field: STARGAZERS, direction: DESC}) {
        totalCount
        nodes {
          name
          stargazerCount
          primaryLanguage {
            name
            color
          }
          languages(first: 10, orderBy: {field: SIZE, direction: DESC}) {
            edges {
              size
              node {
                name
                color
              }
            }
          }
        }
      }
      currentYear: contributionsCollection(from: $currentYearStart, to: $currentYearEnd) {
        contributionCalendar {
          totalContributions
          weeks {
            contributionDays {
              contributionCount
              date
              weekday
            }
          }
        }
        commitContributionsByRepository(maxRepositories: 100) {
          repository {
            name
            primaryLanguage {
              name
            }
          }
          contributions(first: 100) {
            nodes {
              occurredAt
              commitCount
            }
          }
        }
      }
      lastYear: contributionsCollection(from: $lastYearStart, to: $lastYearEnd) {
        contributionCalendar {
          totalContributions
        }
      }
    }
    "#);
    query.append(pinned_repos_query.as_str());
    query.append("\n  }\n");
    assert(query@ =~= query_text(names));
    query
}

/// The alias under which the query fetches the featured repository `index`.
pub open spec fn pinned_alias(index: nat) -> Seq<char> {
    "repo"@ + decimal(index)
}

/// An error of a GraphQL response: the first element of its path and its type,
/// where the response gives them as strings.
pub struct GraphqlError {
    pub path_head: Option<String>,
    pub kind: Option<String>,
}

/// Whether an error says that one of the first `count` featured repositories was
/// not found (a name that does not exist under the account, which the card
/// leaves out): its type is `NOT_FOUND` and its path starts at that
/// repository's alias.
pub open spec fn is_missing_pinned(error: GraphqlError, count: nat) -> bool {
    &&& opt_text(error.kind) == Some("NOT_FOUND"@)
    &&& match opt_text(error.path_head) {
        Some(head) => exists|i: nat| i < count && head == pinned_alias(i),
        None => false,
    }
}

/// Whether the `errors` list of a GraphQL response stops the run: it does unless
/// it holds at least one error and every error says that a featured repository
/// was not found.
pub open spec fn errors_fatal(errors: Seq<GraphqlError>, count: nat) -> bool {
    !(errors.len() > 0 && forall|k: int|
        0 <= k < errors.len() ==> is_missing_pinned(#[trigger] errors[k], count))
}

/// Whether the alias of one of the first `count` featured repositories is `head`.
fn is_pinned_alias(head: &String, count: usize) -> (found: bool)
    ensures
        found == exists|i: nat| i < count && head@ == pinned_alias(i),
{
    let mut i: usize = 0;
    while i < count
        invariant
            i <= count,
            forall|n: nat| n < i ==> head@ != pinned_alias(n),
        decreases count - i,
    {
        let mut alias = String::new();
        alias.append("repo");
        push_decimal(&mut alias, i as u64);
        assert(alias@ =~= pinned_alias(i as nat));
        if str_eq(alias.as_str(), head.as_str()) {
            return true;
        }
        i = i + 1;
    }
    false
}

/// Whether the `errors` list of a GraphQL response stops the run: it does unless
/// it holds at least one error and every error says that one of the `count`
/// featured repositories was not found.
pub fn errors_are_fatal(errors: &Vec<GraphqlError>, count: usize) -> (fatal: bool)
    ensures
        fatal == errors_fatal(errors@, count as nat),
{
    if errors.len() == 0 {
        return true;
    }
    let mut k: usize = 0;
    while k < errors.len()
        invariant
            k <= errors@.len(),
            errors@.len() > 0,
            forall|j: int| 0 <= j < k ==> is_missing_pinned(#[trigger] errors@[j], count as nat),
        decreases errors@.len() - k,
    {
        let error = &errors[k];
        let not_found = match &error.kind {
            Some(kind) => str_eq(kind.as_str(), "NOT_FOUND"),
            None => false,
        };
        let on_alias = match &error.path_head {
            Some(head) => is_pinned_alias(head, count),
            None => false,
        };
        if !(not_found && on_alias) {
            assert(!is_missing_pinned(errors@[k as int], count as nat));
            return true;
        }
        k = k + 1;
    }
    false
}

} // verus!
