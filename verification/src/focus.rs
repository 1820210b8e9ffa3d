//! The monthly focus: the repository with the most commits in the current month,
//! and the sentence that the card writes about it.

use vstd::prelude::*;
use vstd::string::*;
use vstd::utf8::{
    decode_utf8, encode_scalar, encode_utf8, encode_utf8_decode_utf8, encode_utf8_first_scalar,
    encode_utf8_valid_utf8, is_ascii_chars, is_ascii_chars_encode_utf8, is_char_boundary,
    pop_first_scalar,
};

use crate::calendar::{
    chrono_parse_ymd, date_text, month0_of_text, parse_ymd, year_text, zero_padded, CalendarDate,
};
use crate::laws::{lemma_decimal_digits, lemma_zero_padded};
use crate::text::is_digit;
use crate::ranking::{first_max_index, is_first_max};
use crate::stats::{fits_i64, CommitOccurrence, RepoContributions};
use crate::text::str_eq;

verus! {

// ----- Which month a commit falls in -----

/// The month (0..=11) of a time stamp: its first seven bytes, where they end on a
/// character boundary, read as `YYYY-MM` by chrono with `-01` appended.
pub open spec fn occurrence_month0(stamp: Seq<char>) -> Option<int> {
    let bytes = encode_utf8(stamp);
    if bytes.len() >= 7 && is_char_boundary(bytes, 7) {
        month0_of_text(decode_utf8(bytes.subrange(0, 7)) + "-01"@)
    } else {
        None
    }
}

/// Whether a time stamp begins with the year `year` (0..=9999) in four digits, a
/// hyphen and the month `month` (1..=12) in two digits.
pub open spec fn opens_with_month(stamp: Seq<char>, year: nat, month: nat) -> bool {
    &&& year <= 9999
    &&& 1 <= month <= 12
    &&& stamp.len() >= 7
    &&& stamp.take(7) == zero_padded(year, 4) + seq!['-'] + zero_padded(month, 2)
}

/// The UTF-8 bytes of two texts one after the other are the bytes of the first
/// followed by those of the second, and the first ends on a character boundary.
proof fn lemma_encode_concat(a: Seq<char>, b: Seq<char>)
    ensures
        encode_utf8(a + b) == encode_utf8(a) + encode_utf8(b),
        is_char_boundary(encode_utf8(a + b), encode_utf8(a).len() as int),
    decreases a.len(),
{
    encode_utf8_valid_utf8(a + b);
    if a.len() == 0 {
        assert(a + b =~= b);
        assert(encode_utf8(a) + encode_utf8(b) =~= encode_utf8(b));
    } else {
        let s = a + b;
        let rest = a.drop_first();
        lemma_encode_concat(rest, b);
        assert(s.drop_first() =~= rest + b);
        assert(s[0] == a[0]);
        let head = encode_scalar(a[0] as u32);
        assert(encode_utf8(s) == head + encode_utf8(rest + b));
        assert(encode_utf8(a) == head + encode_utf8(rest));
        assert(head + (encode_utf8(rest) + encode_utf8(b)) =~= (head + encode_utf8(rest))
            + encode_utf8(b));
        encode_utf8_first_scalar(s);
        assert(pop_first_scalar(encode_utf8(s)) =~= encode_utf8(rest + b));
        assert(head.len() >= 1);
    }
}

/// A stamp that begins with `YYYY-MM` has those seven characters as its first
/// seven bytes, ending on a character boundary, and with `-01` appended they are
/// the date text of the first of that month.
pub(crate) proof fn lemma_month_stamp(stamp: Seq<char>, year: nat, month: nat)
    requires
        opens_with_month(stamp, year, month),
    ensures
        encode_utf8(stamp).len() >= 7,
        is_char_boundary(encode_utf8(stamp), 7),
        decode_utf8(encode_utf8(stamp).subrange(0, 7)) == stamp.take(7),
        stamp.take(7) + "-01"@ == date_text(
            CalendarDate { year: year as i32, month: month as u32, day: 1 },
        ),
{
    let p = stamp.take(7);
    let r = stamp.skip(7);
    assert(stamp =~= p + r);
    lemma_decimal_digits(year);
    lemma_decimal_digits(month);
    lemma_zero_padded(year, 4);
    lemma_zero_padded(month, 2);
    let yt = zero_padded(year, 4);
    let mt = zero_padded(month, 2);
    assert(is_ascii_chars(p)) by {
        assert forall|i: int| 0 <= i < p.len() implies '\0' <= #[trigger] p[i] <= '\u{7f}' by {
            if i < 4 {
                assert(p[i] == yt[i]);
                assert(is_digit(yt[i]));
            } else if i > 4 {
                assert(p[i] == mt[i - 5]);
                assert(is_digit(mt[i - 5]));
            }
        }
    }
    is_ascii_chars_encode_utf8(p);
    lemma_encode_concat(p, r);
    assert(encode_utf8(stamp).subrange(0, 7) =~= encode_utf8(p));
    encode_utf8_decode_utf8(p);
    reveal_strlit("-01");
    lemma_decimal_digits(1);
    assert(zero_padded(1, 2) =~= seq!['0', '1']);
    assert(year_text(year as i32 as int) == yt);
    assert(p + "-01"@ =~= yt + seq!['-'] + mt + seq!['-'] + zero_padded(1, 2));
}

/// The month (0..=11) of a commit's time stamp, where chrono reads one; a stamp
/// that begins with a year and month as `YYYY-MM` falls in that month.
pub fn occurrence_month(stamp: &str) -> (month0: Option<i64>)
    ensures
        month0 matches Some(m) ==> occurrence_month0(stamp@) == Some(m as int),
        month0 is None ==> occurrence_month0(stamp@) is None,
        forall|year: nat, month: nat|
            #[trigger] opens_with_month(stamp@, year, month) ==> month0 == Some((month - 1) as i64),
{
    let bytes = stamp.as_bytes();
    proof {
        assert forall|year: nat, month: nat| #[trigger]
            opens_with_month(stamp@, year, month) implies encode_utf8(stamp@).len() >= 7
            && is_char_boundary(encode_utf8(stamp@), 7) by {
            lemma_month_stamp(stamp@, year, month);
        }
    }
    if bytes.len() >= 7 && stamp.is_char_boundary(7) {
        let (prefix, _) = stamp.split_at(7);
        proof {
            encode_utf8_decode_utf8(prefix@);
            assert(prefix.spec_bytes() == encode_utf8(prefix@));
            assert(stamp.spec_bytes() == encode_utf8(stamp@));
            assert(encode_utf8(prefix@) == encode_utf8(stamp@).subrange(0, 7));
            assert(prefix@ == decode_utf8(encode_utf8(stamp@).subrange(0, 7)));
        }
        let mut text = prefix.to_owned();
        text.append("-01");
        assert(text@ == decode_utf8(encode_utf8(stamp@).subrange(0, 7)) + "-01"@);
        proof {
            assert forall|year: nat, month: nat| #[trigger]
                opens_with_month(stamp@, year, month) implies text@ == date_text(
                CalendarDate { year: year as i32, month: month as u32, day: 1 },
            ) by {
                lemma_month_stamp(stamp@, year, month);
            }
        }
        match parse_ymd(text.as_str()) {
            Some(d) => {
                assert(chrono_parse_ymd(text@) == Some((d.year, d.month, d.day)));
                Some((d.month as i64) - 1)
            },
            None => None,
        }
    } else {
        None
    }
}

// ----- Commits per repository in the month -----

/// The commits of month `month0` among `occurrences` of repository `name`, in order.
pub open spec fn month_commits_of(
    name: Seq<char>,
    occurrences: Seq<CommitOccurrence>,
    month0: int,
) -> Seq<(Seq<char>, int)>
    decreases occurrences.len(),
{
    if occurrences.len() == 0 {
        Seq::empty()
    } else {
        let before = month_commits_of(name, occurrences.drop_last(), month0);
        let o = occurrences.last();
        if occurrence_month0(o.occurred_at@) == Some(month0) {
            before.push((name, o.commit_count as int))
        } else {
            before
        }
    }
}

/// The commits of month `month0` of all repositories, repository by repository.
pub open spec fn month_commits(contribs: Seq<RepoContributions>, month0: int) -> Seq<
    (Seq<char>, int),
>
    decreases contribs.len(),
{
    if contribs.len() == 0 {
        Seq::empty()
    } else {
        month_commits(contribs.drop_last(), month0) + month_commits_of(
            contribs.last().repo_name@,
            contribs.last().occurrences@,
            month0,
        )
    }
}

/// The repositories of the commits in the order of their first commit.
pub open spec fn repos_in_order(commits: Seq<(Seq<char>, int)>) -> Seq<Seq<char>>
    decreases commits.len(),
{
    if commits.len() == 0 {
        Seq::empty()
    } else {
        let before = repos_in_order(commits.drop_last());
        if before.contains(commits.last().0) {
            before
        } else {
            before.push(commits.last().0)
        }
    }
}

/// The number of commits to repository `name`.
pub open spec fn repo_commit_total(commits: Seq<(Seq<char>, int)>, name: Seq<char>) -> int
    decreases commits.len(),
{
    if commits.len() == 0 {
        0
    } else {
        repo_commit_total(commits.drop_last(), name) + if commits.last().0 == name {
            commits.last().1
        } else {
            0
        }
    }
}

/// The commit totals of the repositories, in the order of their first commit.
pub open spec fn repo_totals(commits: Seq<(Seq<char>, int)>) -> Seq<i64> {
    repos_in_order(commits).map_values(|name: Seq<char>| repo_commit_total(commits, name) as i64)
}

/// The repository with the most commits in the month, the earliest-seen among equal
/// totals; none without commits in the month.
pub open spec fn top_repo(contribs: Seq<RepoContributions>, month0: int) -> Option<Seq<char>> {
    let commits = month_commits(contribs, month0);
    if repos_in_order(commits).len() == 0 {
        None
    } else {
        Some(
            repos_in_order(commits)[choose|k: int| is_first_max(repo_totals(commits), k)],
        )
    }
}

/// Whether the running commit total of every repository fits in an `i64` while
/// the commits are added up in order.
pub open spec fn commit_totals_fit(commits: Seq<(Seq<char>, int)>) -> bool {
    forall|k: int, name: Seq<char>|
        0 <= k <= commits.len() ==> #[trigger] fits_i64(repo_commit_total(commits.take(k), name))
}

proof fn lemma_commits_push(commits: Seq<(Seq<char>, int)>, c: (Seq<char>, int), name: Seq<char>)
    ensures
        repo_commit_total(commits.push(c), name) == repo_commit_total(commits, name) + if c.0
            == name {
            c.1
        } else {
            0
        },
        repos_in_order(commits.push(c)) == if repos_in_order(commits).contains(c.0) {
            repos_in_order(commits)
        } else {
            repos_in_order(commits).push(c.0)
        },
{
    assert(commits.push(c).drop_last() =~= commits);
}

pub(crate) proof fn lemma_repos_in_order_distinct(commits: Seq<(Seq<char>, int)>)
    ensures
        repos_in_order(commits).no_duplicates(),
        forall|name: Seq<char>|
            !repos_in_order(commits).contains(name) ==> repo_commit_total(commits, name) == 0,
    decreases commits.len(),
{
    if commits.len() > 0 {
        lemma_repos_in_order_distinct(commits.drop_last());
        let before = repos_in_order(commits.drop_last());
        if !before.contains(commits.last().0) {
            assert forall|a: int, b: int|
                0 <= a < b < before.push(commits.last().0).len() implies before.push(
                commits.last().0,
            )[a] != before.push(commits.last().0)[b] by {
                if b == before.len() {
                    assert(before.contains(before[a]));
                }
            }
        }
        assert forall|name: Seq<char>|
            !repos_in_order(commits).contains(name) implies repo_commit_total(commits, name)
            == 0 by {
            let last = commits.last().0;
            assert(repos_in_order(commits) == if before.contains(last) {
                before
            } else {
                before.push(last)
            });
            assert(repo_commit_total(commits, name) == repo_commit_total(commits.drop_last(), name)
                + if last == name {
                commits.last().1
            } else {
                0
            });
            if before.contains(name) {
                let i = choose|i: int| 0 <= i < before.len() && before[i] == name;
                if !before.contains(last) {
                    assert(before.push(last)[i] == name);
                }
            }
            if last == name {
                if !before.contains(last) {
                    assert(before.push(last)[before.len() as int] == name);
                }
            }
            assert(!before.contains(name));
            assert(last != name);
        }
    }
}

proof fn lemma_month_commits_of_prefix(
    name: Seq<char>,
    occurrences: Seq<CommitOccurrence>,
    month0: int,
    j: int,
)
    requires
        0 <= j <= occurrences.len(),
    ensures
        month_commits_of(name, occurrences.take(j), month0).len() <= month_commits_of(
            name,
            occurrences,
            month0,
        ).len(),
        month_commits_of(name, occurrences.take(j), month0) =~= month_commits_of(
            name,
            occurrences,
            month0,
        ).take(month_commits_of(name, occurrences.take(j), month0).len() as int),
    decreases occurrences.len(),
{
    if j == occurrences.len() {
        assert(occurrences.take(j) =~= occurrences);
    } else {
        lemma_month_commits_of_prefix(name, occurrences.drop_last(), month0, j);
        assert(occurrences.drop_last().take(j) =~= occurrences.take(j));
    }
}

proof fn lemma_month_commits_prefix(contribs: Seq<RepoContributions>, month0: int, i: int)
    requires
        0 <= i <= contribs.len(),
    ensures
        month_commits(contribs.take(i), month0).len() <= month_commits(contribs, month0).len(),
        month_commits(contribs.take(i), month0) =~= month_commits(contribs, month0).take(
            month_commits(contribs.take(i), month0).len() as int,
        ),
    decreases contribs.len(),
{
    if i == contribs.len() {
        assert(contribs.take(i) =~= contribs);
    } else {
        lemma_month_commits_prefix(contribs.drop_last(), month0, i);
        assert(contribs.drop_last().take(i) =~= contribs.take(i));
    }
}

/// Adds a commit count of repository `name` to the tally of the commits `seen` so far.
fn tally_commit(
    names: &mut Vec<String>,
    totals: &mut Vec<i64>,
    name: &String,
    count: i64,
    Ghost(seen): Ghost<Seq<(Seq<char>, int)>>,
) -> (added: bool)
    requires
        old(names)@.map_values(|n: String| n@) == repos_in_order(seen),
        old(totals)@ == repo_totals(seen),
        forall|n: Seq<char>| #[trigger] fits_i64(repo_commit_total(seen, n)),
    ensures
        added <==> fits_i64(repo_commit_total(seen.push((name@, count as int)), name@)),
        added ==> final(names)@.map_values(|n: String| n@) == repos_in_order(
            seen.push((name@, count as int)),
        ),
        added ==> final(totals)@ == repo_totals(seen.push((name@, count as int))),
{
    let ghost c = (name@, count as int);
    let ghost next = seen.push(c);
    proof {
        lemma_repos_in_order_distinct(seen);
        lemma_commits_push(seen, c, name@);
    }
    let ghost old_names = names@.map_values(|n: String| n@);
    let ghost old_totals = totals@;
    assert(old_names.len() == names@.len());
    let mut p: usize = 0;
    let mut found = false;
    while p < names.len() && !found
        invariant
            p <= names@.len(),
            names@.map_values(|n: String| n@) == old_names,
            old_names.len() == names@.len(),
            forall|q: int| 0 <= q < p ==> old_names[q] != name@,
            found ==> p < names@.len() && old_names[p as int] == name@,
        decreases names@.len() - p + if found {
            0int
        } else {
            1int
        },
    {
        if str_eq(names[p].as_str(), name.as_str()) {
            found = true;
        } else {
            p = p + 1;
        }
    }
    if found {
        proof {
            assert(repos_in_order(seen)[p as int] == name@);
            assert(repos_in_order(seen).contains(name@));
            assert(fits_i64(repo_commit_total(seen, name@)));
            assert(old_totals[p as int] == repo_commit_total(seen, name@) as i64);
            assert(repos_in_order(next) == repos_in_order(seen));
        }
        let updated = match totals[p].checked_add(count) {
            Some(u) => u,
            None => return false,
        };
        totals.set(p, updated);
        proof {
            assert forall|q: int| 0 <= q < totals@.len() implies totals@[q] == repo_totals(next)[q] by {
                lemma_commits_push(seen, c, old_names[q]);
                assert(repos_in_order(next)[q] == old_names[q]);
                if q != p {
                    assert(old_names[q] != old_names[p as int]);
                    assert(totals@[q] == old_totals[q]);
                }
            }
            assert(totals@ =~= repo_totals(next));
        }
        true
    } else {
        proof {
            assert(!repos_in_order(seen).contains(name@)) by {
                if repos_in_order(seen).contains(name@) {
                    let q = choose|q: int|
                        0 <= q < repos_in_order(seen).len() && repos_in_order(seen)[q] == name@;
                }
            }
            assert(repo_commit_total(seen, name@) == 0);
        }
        names.push(name.clone());
        totals.push(count);
        proof {
            assert(names@.map_values(|n: String| n@) =~= repos_in_order(next));
            assert forall|q: int| 0 <= q < totals@.len() implies totals@[q] == repo_totals(next)[q] by {
                if q < old_totals.len() {
                    lemma_commits_push(seen, c, old_names[q]);
                    assert(old_names[q] != name@) by {
                        assert(repos_in_order(seen).contains(old_names[q]));
                    }
                }
            }
            assert(totals@ =~= repo_totals(next));
        }
        true
    }
}

/// Whether the running totals of a prefix of the commits fit, given that those of all do.
proof fn lemma_commit_totals_fit_prefix(commits: Seq<(Seq<char>, int)>, m: int)
    requires
        0 <= m <= commits.len(),
        commit_totals_fit(commits),
    ensures
        commit_totals_fit(commits.take(m)),
{
    assert forall|k: int, name: Seq<char>| 0 <= k <= commits.take(m).len() implies #[trigger] fits_i64(
        repo_commit_total(commits.take(m).take(k), name),
    ) by {
        assert(commits.take(m).take(k) =~= commits.take(k));
    }
}

/// Adds the commits of month `month0` of one repository to the tally of the
/// commits `done` so far.
fn tally_repository(
    names: &mut Vec<String>,
    totals: &mut Vec<i64>,
    rc: &RepoContributions,
    month0: i64,
    Ghost(done): Ghost<Seq<(Seq<char>, int)>>,
) -> (added: bool)
    requires
        old(names)@.map_values(|n: String| n@) == repos_in_order(done),
        old(totals)@ == repo_totals(done),
        commit_totals_fit(done),
    ensures
        added <==> commit_totals_fit(
            done + month_commits_of(rc.repo_name@, rc.occurrences@, month0 as int),
        ),
        added ==> final(names)@.map_values(|n: String| n@) == repos_in_order(
            done + month_commits_of(rc.repo_name@, rc.occurrences@, month0 as int),
        ),
        added ==> final(totals)@ == repo_totals(
            done + month_commits_of(rc.repo_name@, rc.occurrences@, month0 as int),
        ),
{
    let ghost whole = done + month_commits_of(rc.repo_name@, rc.occurrences@, month0 as int);
    let mut j: usize = 0;
    assert(done + month_commits_of(rc.repo_name@, rc.occurrences@.take(0), month0 as int) =~= done);
    while j < rc.occurrences.len()
        invariant
            j <= rc.occurrences@.len(),
            whole == done + month_commits_of(rc.repo_name@, rc.occurrences@, month0 as int),
            commit_totals_fit(
                done + month_commits_of(rc.repo_name@, rc.occurrences@.take(j as int), month0 as int),
            ),
            names@.map_values(|n: String| n@) == repos_in_order(
                done + month_commits_of(rc.repo_name@, rc.occurrences@.take(j as int), month0 as int),
            ),
            totals@ == repo_totals(
                done + month_commits_of(rc.repo_name@, rc.occurrences@.take(j as int), month0 as int),
            ),
        decreases rc.occurrences@.len() - j,
    {
        let ghost seen = done + month_commits_of(
            rc.repo_name@,
            rc.occurrences@.take(j as int),
            month0 as int,
        );
        let occ = &rc.occurrences[j];
        proof {
            assert(rc.occurrences@.take(j + 1).drop_last() =~= rc.occurrences@.take(j as int));
            assert(rc.occurrences@.take(j + 1).last() == *occ);
            lemma_month_commits_of_prefix(rc.repo_name@, rc.occurrences@, month0 as int, j + 1);
            lemma_month_commits_of_prefix(rc.repo_name@, rc.occurrences@, month0 as int, j as int);
            let inner = month_commits_of(rc.repo_name@, rc.occurrences@, month0 as int);
            let before = month_commits_of(rc.repo_name@, rc.occurrences@.take(j as int), month0 as int);
            assert(seen =~= whole.take(seen.len() as int)) by {
                assert(before =~= inner.take(before.len() as int));
            }
            assert forall|n: Seq<char>| #[trigger] fits_i64(repo_commit_total(seen, n)) by {
                assert(seen.take(seen.len() as int) =~= seen);
            }
        }
        if occurrence_month(occ.occurred_at.as_str()) == Some(month0) {
            let ghost c = (rc.repo_name@, occ.commit_count as int);
            let ghost next = seen.push(c);
            proof {
                let inner = month_commits_of(rc.repo_name@, rc.occurrences@, month0 as int);
                let after = month_commits_of(rc.repo_name@, rc.occurrences@.take(j + 1), month0 as int);
                assert(done + after =~= next);
                assert(next =~= whole.take(next.len() as int)) by {
                    assert(after =~= inner.take(after.len() as int));
                }
            }
            if !tally_commit(names, totals, &rc.repo_name, occ.commit_count, Ghost(seen)) {
                proof {
                    assert(!fits_i64(repo_commit_total(whole.take(next.len() as int), rc.repo_name@)));
                }
                return false;
            }
            proof {
                assert forall|k: int, n: Seq<char>| 0 <= k <= next.len() implies #[trigger] fits_i64(
                    repo_commit_total(next.take(k), n),
                ) by {
                    if k == next.len() {
                        assert(next.take(k) =~= next);
                        lemma_commits_push(seen, c, n);
                        assert(seen.take(seen.len() as int) =~= seen);
                        if n != rc.repo_name@ {
                            assert(fits_i64(repo_commit_total(seen, n)));
                        }
                    } else {
                        assert(next.take(k) =~= seen.take(k));
                    }
                }
            }
        } else {
            proof {
                assert(done + month_commits_of(
                    rc.repo_name@,
                    rc.occurrences@.take(j + 1),
                    month0 as int,
                ) =~= seen);
            }
        }
        j = j + 1;
    }
    assert(rc.occurrences@.take(rc.occurrences@.len() as int) =~= rc.occurrences@);
    true
}

/// The repositories with commits in month `month0`, in the order of their first
/// commit, and their commit totals; `None` where a running total leaves the range
/// of `i64`.
pub fn repo_commit_counts(contribs: &Vec<RepoContributions>, month0: i64) -> (counts: Option<
    (Vec<String>, Vec<i64>),
>)
    ensures
        counts is Some <==> commit_totals_fit(month_commits(contribs@, month0 as int)),
        counts matches Some(c) ==> c.0@.map_values(|n: String| n@) == repos_in_order(
            month_commits(contribs@, month0 as int),
        ),
        counts matches Some(c) ==> c.1@ == repo_totals(month_commits(contribs@, month0 as int)),
{
    let ghost all = month_commits(contribs@, month0 as int);
    let mut names: Vec<String> = Vec::new();
    let mut totals: Vec<i64> = Vec::new();
    let mut i: usize = 0;
    assert(names@.map_values(|n: String| n@) =~= repos_in_order(
        month_commits(contribs@.take(0), month0 as int),
    ));
    assert(totals@ =~= repo_totals(month_commits(contribs@.take(0), month0 as int)));
    assert(commit_totals_fit(month_commits(contribs@.take(0), month0 as int))) by {
        assert(contribs@.take(0) =~= Seq::<RepoContributions>::empty());
        assert forall|k: int, n: Seq<char>| 0 <= k <= 0 implies #[trigger] fits_i64(
            repo_commit_total(Seq::<(Seq<char>, int)>::empty().take(k), n),
        ) by {
            assert(Seq::<(Seq<char>, int)>::empty().take(k) =~= Seq::<(Seq<char>, int)>::empty());
        }
    }
    while i < contribs.len()
        invariant
            i <= contribs@.len(),
            all == month_commits(contribs@, month0 as int),
            commit_totals_fit(month_commits(contribs@.take(i as int), month0 as int)),
            names@.map_values(|n: String| n@) == repos_in_order(
                month_commits(contribs@.take(i as int), month0 as int),
            ),
            totals@ == repo_totals(month_commits(contribs@.take(i as int), month0 as int)),
        decreases contribs@.len() - i,
    {
        let ghost done = month_commits(contribs@.take(i as int), month0 as int);
        let rc = &contribs[i];
        proof {
            assert(contribs@.take(i + 1).drop_last() =~= contribs@.take(i as int));
            assert(contribs@.take(i + 1).last() == *rc);
            lemma_month_commits_prefix(contribs@, month0 as int, i + 1);
        }
        if !tally_repository(&mut names, &mut totals, rc, month0, Ghost(done)) {
            proof {
                let part = month_commits(contribs@.take(i + 1), month0 as int);
                if commit_totals_fit(all) {
                    lemma_commit_totals_fit_prefix(all, part.len() as int);
                }
            }
            return None;
        }
        i = i + 1;
    }
    assert(contribs@.take(contribs@.len() as int) =~= contribs@);
    Some((names, totals))
}

// ----- The sentence about the focus -----

/// The primary language last recorded for repository `name`.
pub open spec fn language_of(contribs: Seq<RepoContributions>, name: Seq<char>) -> Option<Seq<char>>
    decreases contribs.len(),
{
    if contribs.len() == 0 {
        None
    } else {
        let rc = contribs.last();
        if rc.repo_name@ == name && rc.primary_language is Some {
            Some(rc.primary_language->0@)
        } else {
            language_of(contribs.drop_last(), name)
        }
    }
}

/// The kind of work that the card names for a primary language.
pub open spec fn activity_type_text(language: Option<Seq<char>>) -> Seq<char> {
    match language {
        None => "general development"@,
        Some(lang) => if lang == "Rust"@ {
            "systems programming"@
        } else if lang == "Go"@ {
            "backend services"@
        } else if lang == "TypeScript"@ {
            "application development"@
        } else if lang == "JavaScript"@ {
            "interactive interfaces"@
        } else if lang == "Python"@ {
            "data processing"@
        } else if lang == "Lua"@ {
            "configuration & scripting"@
        } else if lang == "Nix"@ {
            "reproducible infrastructure"@
        } else if lang == "HTML"@ {
            "structure & layout"@
        } else if lang == "CSS"@ {
            "visual styling"@
        } else if lang == "C++"@ {
            "performance engineering"@
        } else if lang == "C"@ {
            "low-level system logic"@
        } else if lang == "Shell"@ {
            "automation scripts"@
        } else {
            "coding activity"@
        },
    }
}

/// The characters of an optional string slice.
pub open spec fn opt_str(text: Option<&str>) -> Option<Seq<char>> {
    match text {
        Some(t) => Some(t@),
        None => None,
    }
}

/// The kind of work that the card names for a primary language.
pub fn get_activity_type(language: Option<&str>) -> (activity: &'static str)
    ensures
        activity@ == activity_type_text(opt_str(language)),
{
    match language {
        None => "general development",
        Some(lang) => {
            if str_eq(lang, "Rust") {
                "systems programming"
            } else if str_eq(lang, "Go") {
                "backend services"
            } else if str_eq(lang, "TypeScript") {
                "application development"
            } else if str_eq(lang, "JavaScript") {
                "interactive interfaces"
            } else if str_eq(lang, "Python") {
                "data processing"
            } else if str_eq(lang, "Lua") {
                "configuration & scripting"
            } else if str_eq(lang, "Nix") {
                "reproducible infrastructure"
            } else if str_eq(lang, "HTML") {
                "structure & layout"
            } else if str_eq(lang, "CSS") {
                "visual styling"
            } else if str_eq(lang, "C++") {
                "performance engineering"
            } else if str_eq(lang, "C") {
                "low-level system logic"
            } else if str_eq(lang, "Shell") {
                "automation scripts"
            } else {
                "coding activity"
            }
        },
    }
}

/// The primary language last recorded for repository `name`.
pub fn repo_language(contribs: &Vec<RepoContributions>, name: &str) -> (language: Option<String>)
    ensures
        match language {
            Some(l) => language_of(contribs@, name@) == Some(l@),
            None => language_of(contribs@, name@) is None,
        },
{
    let mut idx: usize = contribs.len();
    assert(contribs@.take(idx as int) =~= contribs@);
    while idx > 0
        invariant
            idx <= contribs@.len(),
            language_of(contribs@, name@) == language_of(contribs@.take(idx as int), name@),
        decreases idx,
    {
        let rc = &contribs[idx - 1];
        proof {
            assert(contribs@.take(idx as int).drop_last() =~= contribs@.take(idx - 1));
            assert(contribs@.take(idx as int).last() == contribs@[idx - 1]);
        }
        if str_eq(rc.repo_name.as_str(), name) {
            match &rc.primary_language {
                Some(lang) => {
                    return Some(lang.clone());
                },
                None => {},
            }
        }
        idx = idx - 1;
    }
    proof {
        assert(contribs@.take(0) =~= Seq::<RepoContributions>::empty());
    }
    None
}

/// The sentence of the card about the month's focus repository.
pub open spec fn focus_sentence(
    month_name: Seq<char>,
    repo: Seq<char>,
    language: Option<Seq<char>>,
) -> Seq<char> {
    month_name + " saw a significant shift towards "@ + activity_type_text(language)
        + r#", with heavy activity in <span class="text-accent font-medium">"#@ + match language {
        Some(l) => l,
        None => "Code"@,
    } + r#"</span> configurations for the <span class="text-accent font-medium">"#@ + repo
        + "</span> setup."@
}

/// The name of the focus repository, `Research` without commits in the month.
pub open spec fn focus_name(contribs: Seq<RepoContributions>, month0: int) -> Seq<char> {
    match top_repo(contribs, month0) {
        Some(repo) => repo,
        None => "Research"@,
    }
}

/// The card's sentence about the focus, or its motto without commits in the month.
pub open spec fn focus_html(
    contribs: Seq<RepoContributions>,
    month0: int,
    month_name: Seq<char>,
) -> Seq<char> {
    match top_repo(contribs, month0) {
        Some(repo) => focus_sentence(month_name, repo, language_of(contribs, repo)),
        None => "Structuring <b>ideas</b> into reality."@,
    }
}

/// The month's focus repository and the card's sentence about it, for month
/// `month0` (0..=11) named `month_name`.
pub fn monthly_focus(contribs: &Vec<RepoContributions>, month0: i64, month_name: &str) -> (focus:
    Option<(String, String)>)
    ensures
        focus is Some <==> commit_totals_fit(month_commits(contribs@, month0 as int)),
        focus matches Some(f) ==> f.0@ == focus_name(contribs@, month0 as int),
        focus matches Some(f) ==> f.1@ == focus_html(contribs@, month0 as int, month_name@),
{
    let (names, totals) = match repo_commit_counts(contribs, month0) {
        Some(counts) => counts,
        None => return None,
    };
    let ghost commits = month_commits(contribs@, month0 as int);
    assert(names@.len() == repos_in_order(commits).len());
    match first_max_index(&totals) {
        None => Some(("Research".to_owned(), "Structuring <b>ideas</b> into reality.".to_owned())),
        Some(k) => {
            proof {
                let c = choose|c: int| is_first_max(repo_totals(commits), c);
                assert(c == k as int) by {
                    if c < k {
                        assert(totals@[c] < totals@[k as int]);
                    } else if c > k {
                        assert(totals@[k as int] < totals@[c]);
                    }
                }
                assert(names@[k as int]@ == repos_in_order(commits)[k as int]);
            }
            let top = names[k].clone();
            let language = repo_language(contribs, top.as_str());
            let activity = match &language {
                Some(l) => get_activity_type(Some(l.as_str())),
                None => get_activity_type(None),
            };
            let mut html = month_name.to_owned();
            html.append(" saw a significant shift towards ");
            html.append(activity);
            html.append(r#", with heavy activity in <span class="text-accent font-medium">"#);
            match &language {
                Some(l) => html.append(l.as_str()),
                None => html.append("Code"),
            }
            html.append(r#"</span> configurations for the <span class="text-accent font-medium">"#);
            html.append(top.as_str());
            html.append("</span> setup.");
            assert(html@ =~= focus_sentence(month_name@, top@, language_of(contribs@, top@)));
            Some((top, html))
        },
    }
}

} // verus!
