//! The languages of the account's repositories: bytes of code per language,
//! summed over all repositories, and the languages with the largest shares.

use vstd::prelude::*;
use vstd::utf8::{encode_utf8, encode_utf8_decode_utf8};

use crate::ranking::{item_of_rank, lemma_rank_onto, stable_order_desc};
use crate::stats::{
    fits_i64, lemma_sum_insert_update, sum_of, LanguageEdge, LanguageStat, LanguageStatView, RepoNode,
};
use crate::text::str_eq;

verus! {

// ----- Byte order of names -----

/// Whether `a` comes before `b` in lexicographic byte order (the order of `String`).
pub open spec fn lex_less(a: Seq<u8>, b: Seq<u8>) -> bool
    decreases a.len(),
{
    if a.len() == 0 {
        b.len() > 0
    } else if b.len() == 0 {
        false
    } else if a[0] != b[0] {
        a[0] < b[0]
    } else {
        lex_less(a.drop_first(), b.drop_first())
    }
}

/// The UTF-8 bytes of a name.
pub open spec fn name_bytes(name: Seq<char>) -> Seq<u8> {
    encode_utf8(name)
}

/// Whether `a` comes before `b` in the byte order of their UTF-8 encodings.
pub open spec fn name_less(a: Seq<char>, b: Seq<char>) -> bool {
    lex_less(name_bytes(a), name_bytes(b))
}

proof fn lemma_lex_irreflexive(a: Seq<u8>)
    ensures
        !lex_less(a, a),
    decreases a.len(),
{
    if a.len() > 0 {
        lemma_lex_irreflexive(a.drop_first());
    }
}

proof fn lemma_lex_transitive(a: Seq<u8>, b: Seq<u8>, c: Seq<u8>)
    requires
        lex_less(a, b),
        lex_less(b, c),
    ensures
        lex_less(a, c),
    decreases a.len(),
{
    if a.len() > 0 && b.len() > 0 && c.len() > 0 && a[0] == b[0] && b[0] == c[0] {
        lemma_lex_transitive(a.drop_first(), b.drop_first(), c.drop_first());
    }
}

proof fn lemma_lex_total(a: Seq<u8>, b: Seq<u8>)
    requires
        a != b,
    ensures
        lex_less(a, b) || lex_less(b, a),
    decreases a.len(),
{
    if a.len() > 0 && b.len() > 0 && a[0] == b[0] {
        if a.drop_first() == b.drop_first() {
            assert(a =~= seq![a[0]] + a.drop_first());
            assert(b =~= seq![b[0]] + b.drop_first());
        }
        lemma_lex_total(a.drop_first(), b.drop_first());
    } else if a.len() == 0 && b.len() == 0 {
        assert(a =~= b);
    }
}

/// Distinct names have distinct UTF-8 encodings.
proof fn lemma_name_bytes_injective(a: Seq<char>, b: Seq<char>)
    requires
        name_bytes(a) == name_bytes(b),
    ensures
        a == b,
{
    encode_utf8_decode_utf8(a);
    encode_utf8_decode_utf8(b);
}

/// Whether `a` comes before `b` in lexicographic byte order.
fn bytes_less(a: &[u8], b: &[u8]) -> (less: bool)
    ensures
        less == lex_less(a@, b@),
{
    let mut i: usize = 0;
    assert(a@.skip(0) =~= a@ && b@.skip(0) =~= b@);
    while i < a.len() && i < b.len()
        invariant
            i <= a@.len(),
            i <= b@.len(),
            lex_less(a@, b@) == lex_less(a@.skip(i as int), b@.skip(i as int)),
        decreases a@.len() - i,
    {
        if a[i] != b[i] {
            return a[i] < b[i];
        }
        assert(a@.skip(i as int).drop_first() =~= a@.skip(i + 1));
        assert(b@.skip(i as int).drop_first() =~= b@.skip(i + 1));
        i = i + 1;
    }
    i < b.len()
}

/// Whether name `a` comes before name `b` in the byte order of `String`.
fn name_before(a: &String, b: &String) -> (less: bool)
    ensures
        less == name_less(a@, b@),
{
    bytes_less(a.as_str().as_bytes(), b.as_str().as_bytes())
}

// ----- Summing the languages up -----

/// A language with the bytes of code written in it over all repositories, and the
/// color of its first appearance.
pub struct LanguageTotal {
    pub name: String,
    pub size: i64,
    pub color: String,
}

/// The languages of all repositories, ordered by name, and the bytes of code of all of them.
pub struct LanguageTotals {
    pub entries: Vec<LanguageTotal>,
    pub total_size: i64,
}

/// The language edges of all repositories, repository by repository.
pub open spec fn all_edges(repos: Seq<RepoNode>) -> Seq<LanguageEdge>
    decreases repos.len(),
{
    if repos.len() == 0 {
        Seq::empty()
    } else {
        all_edges(repos.drop_last()) + repos.last().languages@
    }
}

/// The bytes of code of all edges.
pub open spec fn size_sum(edges: Seq<LanguageEdge>) -> int
    decreases edges.len(),
{
    if edges.len() == 0 {
        0
    } else {
        size_sum(edges.drop_last()) + edges.last().size
    }
}

/// The bytes of code of the edges of language `name`.
pub open spec fn named_size(edges: Seq<LanguageEdge>, name: Seq<char>) -> int
    decreases edges.len(),
{
    if edges.len() == 0 {
        0
    } else {
        named_size(edges.drop_last(), name) + if edges.last().name@ == name {
            edges.last().size as int
        } else {
            0
        }
    }
}

/// Whether some edge is of language `name`.
pub open spec fn has_name(edges: Seq<LanguageEdge>, name: Seq<char>) -> bool {
    exists|i: int| 0 <= i < edges.len() && edges[i].name@ == name
}

/// The color of the first edge of language `name`.
pub open spec fn first_color(edges: Seq<LanguageEdge>, name: Seq<char>) -> Seq<char>
    decreases edges.len(),
{
    if edges.len() == 0 {
        Seq::empty()
    } else if has_name(edges.drop_last(), name) {
        first_color(edges.drop_last(), name)
    } else {
        edges.last().color@
    }
}

/// The byte counts of the entries, in order.
pub open spec fn entry_sizes(entries: Seq<LanguageTotal>) -> Seq<int> {
    entries.map_values(|e: LanguageTotal| e.size as int)
}

/// Whether every running total, of all bytes and of the bytes of each language,
/// fits in an `i64` while the edges are added up in order.
pub open spec fn language_sums_fit(edges: Seq<LanguageEdge>) -> bool {
    &&& forall|k: int| 0 <= k <= edges.len() ==> #[trigger] fits_i64(size_sum(edges.take(k)))
    &&& forall|k: int, name: Seq<char>|
        0 <= k <= edges.len() ==> #[trigger] fits_i64(named_size(edges.take(k), name))
}

/// Whether the names of the entries ascend strictly in byte order.
pub open spec fn names_ascending(entries: Seq<LanguageTotal>) -> bool {
    forall|i: int, j: int|
        0 <= i < j < entries.len() ==> name_less(entries[i].name@, entries[j].name@)
}

/// Whether `entries` are the languages of `edges`: one entry per language, in
/// byte order of the names, each with the bytes of code of its edges and the color
/// of its first edge.
pub open spec fn summarizes(entries: Seq<LanguageTotal>, edges: Seq<LanguageEdge>) -> bool {
    &&& names_ascending(entries)
    &&& forall|i: int|
        0 <= i < entries.len() ==> {
            &&& has_name(edges, #[trigger] entries[i].name@)
            &&& entries[i].size == named_size(edges, entries[i].name@)
            &&& entries[i].color@ == first_color(edges, entries[i].name@)
        }
    &&& forall|k: int|
        0 <= k < edges.len() ==> exists|i: int|
            0 <= i < entries.len() && #[trigger] entries[i].name@ == #[trigger] edges[k].name@
}

proof fn lemma_edges_push(edges: Seq<LanguageEdge>, e: LanguageEdge, name: Seq<char>)
    ensures
        named_size(edges.push(e), name) == named_size(edges, name) + if e.name@ == name {
            e.size as int
        } else {
            0
        },
        size_sum(edges.push(e)) == size_sum(edges) + e.size,
        has_name(edges.push(e), name) == (has_name(edges, name) || e.name@ == name),
        first_color(edges.push(e), name) == if has_name(edges, name) {
            first_color(edges, name)
        } else {
            e.color@
        },
{
    let pushed = edges.push(e);
    assert(pushed.drop_last() =~= edges);
    assert(pushed[edges.len() as int] == e);
    if has_name(pushed, name) && !has_name(edges, name) {
        let i = choose|i: int| 0 <= i < pushed.len() && pushed[i].name@ == name;
        assert(i == edges.len());
    }
    if has_name(edges, name) {
        let i = choose|i: int| 0 <= i < edges.len() && edges[i].name@ == name;
        assert(pushed[i] == edges[i]);
    }
}

proof fn lemma_named_size_absent(edges: Seq<LanguageEdge>, name: Seq<char>)
    requires
        !has_name(edges, name),
    ensures
        named_size(edges, name) == 0,
    decreases edges.len(),
{
    if edges.len() > 0 {
        assert(!has_name(edges.drop_last(), name)) by {
            if has_name(edges.drop_last(), name) {
                let i = choose|i: int|
                    0 <= i < edges.drop_last().len() && edges.drop_last()[i].name@ == name;
                assert(edges[i].name@ == name);
            }
        }
        assert(edges.last().name@ != name) by {
            if edges.last().name@ == name {
                assert(edges[edges.len() - 1].name@ == name);
            }
        }
        lemma_named_size_absent(edges.drop_last(), name);
    }
}

/// The edges of the first repositories come first among the edges of all repositories.
proof fn lemma_all_edges_prefix(repos: Seq<RepoNode>, i: int)
    requires
        0 <= i <= repos.len(),
    ensures
        all_edges(repos.take(i)).len() <= all_edges(repos).len(),
        all_edges(repos.take(i)) =~= all_edges(repos).take(all_edges(repos.take(i)).len() as int),
    decreases repos.len(),
{
    if i == repos.len() {
        assert(repos.take(i) =~= repos);
    } else {
        lemma_all_edges_prefix(repos.drop_last(), i);
        assert(repos.drop_last().take(i) =~= repos.take(i));
    }
}

/// Adds one language edge to the summary `entries` of the edges `seen` so far and
/// to their byte total; `false` where the language's total or the byte total
/// leaves the range of `i64`.
fn add_edge(
    entries: &mut Vec<LanguageTotal>,
    total_size: &mut i64,
    edge: &LanguageEdge,
    Ghost(seen): Ghost<Seq<LanguageEdge>>,
) -> (added: bool)
    requires
        summarizes(old(entries)@, seen),
        *old(total_size) == size_sum(seen),
        *old(total_size) == sum_of(entry_sizes(old(entries)@)),
        language_sums_fit(seen),
    ensures
        added <==> fits_i64(size_sum(seen.push(*edge))) && fits_i64(
            named_size(seen.push(*edge), edge.name@),
        ),
        added ==> summarizes(final(entries)@, seen.push(*edge)),
        added ==> *final(total_size) == size_sum(seen.push(*edge)),
        added ==> *final(total_size) == sum_of(entry_sizes(final(entries)@)),
        added ==> language_sums_fit(seen.push(*edge)),
{
    let ghost next = seen.push(*edge);
    proof {
        lemma_edges_push(seen, *edge, edge.name@);
        assert forall|name: Seq<char>| #[trigger]
            named_size(next, name) == named_size(seen, name) + (if edge.name@ == name {
                edge.size as int
            } else {
                0
            }) && size_sum(next) == size_sum(seen) + edge.size && has_name(next, name) == (
            has_name(seen, name) || edge.name@ == name) && first_color(next, name) == (
            if has_name(seen, name) {
                first_color(seen, name)
            } else {
                edge.color@
            }) by {
            lemma_edges_push(seen, *edge, name);
        }
        assert(seen.take(seen.len() as int) =~= seen);
    }
    let new_total = match (*total_size).checked_add(edge.size) {
        Some(t) => t,
        None => {
            return false;
        },
    };
    // Find the entry of the edge's language, or where it belongs in byte order.
    let mut p: usize = 0;
    let mut found = false;
    let mut settled = false;
    while p < entries.len() && !settled
        invariant
            p <= entries@.len(),
            names_ascending(entries@),
            forall|q: int| 0 <= q < p ==> name_less(entries@[q].name@, edge.name@),
            found ==> settled && p < entries@.len() && entries@[p as int].name@
                == edge.name@,
            settled && !found ==> p < entries@.len() && name_less(
                edge.name@,
                entries@[p as int].name@,
            ),
        decreases entries@.len() - p + if settled {
            0int
        } else {
            1int
        },
    {
        if str_eq(entries[p].name.as_str(), edge.name.as_str()) {
            found = true;
            settled = true;
        } else if name_before(&edge.name, &entries[p].name) {
            settled = true;
        } else {
            proof {
                if name_bytes(entries@[p as int].name@) == name_bytes(edge.name@) {
                    lemma_name_bytes_injective(entries@[p as int].name@, edge.name@);
                }
                lemma_lex_total(name_bytes(entries@[p as int].name@), name_bytes(edge.name@));
            }
            p = p + 1;
        }
    }
    let ghost old_entries = entries@;
    if found {
        let updated = match entries[p].size.checked_add(edge.size) {
            Some(u) => u,
            None => {
                proof {
                    assert(has_name(seen, old_entries[p as int].name@));
                }
                return false;
            },
        };
        let mut entry = entries.remove(p);
        entry.size = updated;
        entries.insert(p, entry);
        proof {
            lemma_sum_insert_update(
                entry_sizes(old_entries),
                p as int,
                old_entries[p as int].size + edge.size,
            );
            assert(entry_sizes(entries@) =~= entry_sizes(old_entries).update(
                p as int,
                old_entries[p as int].size + edge.size,
            ));
            assert forall|q: int| 0 <= q < entries@.len() && q != p implies entries@[q]
                == old_entries[q] && entries@[q].name@ != edge.name@ by {
                if q < p {
                    lemma_lex_irreflexive(name_bytes(edge.name@));
                } else {
                    assert(name_less(old_entries[p as int].name@, old_entries[q].name@));
                    lemma_lex_irreflexive(name_bytes(edge.name@));
                }
            }
            assert forall|k: int| 0 <= k < next.len() implies exists|r: int|
                0 <= r < entries@.len() && #[trigger] entries@[r].name@
                    == #[trigger] next[k].name@ by {
                if k < seen.len() {
                    let r = choose|r: int|
                        0 <= r < old_entries.len() && #[trigger] old_entries[r].name@
                            == #[trigger] seen[k].name@;
                    assert(entries@[r].name@ == old_entries[r].name@);
                    assert(next[k] == seen[k]);
                } else {
                    assert(entries@[p as int].name@ == next[k].name@);
                }
            }
            assert(has_name(seen, old_entries[p as int].name@));
            assert forall|q: int| 0 <= q < entries@.len() implies {
                &&& has_name(next, #[trigger] entries@[q].name@)
                &&& entries@[q].size == named_size(next, entries@[q].name@)
                &&& entries@[q].color@ == first_color(next, entries@[q].name@)
            } by {
                lemma_edges_push(seen, *edge, entries@[q].name@);
                assert(has_name(seen, old_entries[q].name@));
                assert(old_entries[q].size == named_size(seen, old_entries[q].name@));
            }
            assert forall|a: int, b: int|
                0 <= a < b < entries@.len() implies name_less(
                entries@[a].name@,
                entries@[b].name@,
            ) by {
                assert(name_less(old_entries[a].name@, old_entries[b].name@));
            }
        }
    } else {
        proof {
            assert forall|q: int| 0 <= q < old_entries.len() implies old_entries[q].name@
                != edge.name@ by {
                if q < p {
                    lemma_lex_irreflexive(name_bytes(edge.name@));
                } else {
                    assert(name_less(edge.name@, old_entries[p as int].name@));
                    if q > p {
                        assert(name_less(old_entries[p as int].name@, old_entries[q].name@));
                        lemma_lex_transitive(
                            name_bytes(edge.name@),
                            name_bytes(old_entries[p as int].name@),
                            name_bytes(old_entries[q].name@),
                        );
                    }
                    lemma_lex_irreflexive(name_bytes(edge.name@));
                }
            }
            assert(!has_name(seen, edge.name@)) by {
                if has_name(seen, edge.name@) {
                    let k = choose|k: int| 0 <= k < seen.len() && seen[k].name@ == edge.name@;
                    let r = choose|r: int|
                        0 <= r < old_entries.len() && #[trigger] old_entries[r].name@
                            == #[trigger] seen[k].name@;
                }
            }
            lemma_named_size_absent(seen, edge.name@);
        }
        let entry = LanguageTotal {
            name: edge.name.clone(),
            size: edge.size,
            color: edge.color.clone(),
        };
        entries.insert(p, entry);
        proof {
            lemma_sum_insert_update(entry_sizes(old_entries), p as int, edge.size as int);
            assert(entry_sizes(entries@) =~= entry_sizes(old_entries).insert(
                p as int,
                edge.size as int,
            ));
            assert forall|q: int| 0 <= q < entries@.len() && q != p implies entries@[q]
                == (if q < p {
                old_entries[q]
            } else {
                old_entries[q - 1]
            }) && entries@[q].name@ != edge.name@ by {}
            assert forall|a: int, b: int|
                0 <= a < b < entries@.len() implies name_less(
                entries@[a].name@,
                entries@[b].name@,
            ) by {
                if b == p {
                } else if a == p {
                    if b > p + 1 {
                        assert(name_less(
                            old_entries[p as int].name@,
                            old_entries[b - 1].name@,
                        ));
                        lemma_lex_transitive(
                            name_bytes(edge.name@),
                            name_bytes(old_entries[p as int].name@),
                            name_bytes(old_entries[b - 1].name@),
                        );
                    }
                } else if a < p && b > p {
                    assert(name_less(old_entries[a].name@, edge.name@));
                    if b - 1 == p {
                        lemma_lex_transitive(
                            name_bytes(old_entries[a].name@),
                            name_bytes(edge.name@),
                            name_bytes(old_entries[p as int].name@),
                        );
                    } else {
                        assert(name_less(
                            old_entries[p as int].name@,
                            old_entries[b - 1].name@,
                        ));
                        lemma_lex_transitive(
                            name_bytes(old_entries[a].name@),
                            name_bytes(edge.name@),
                            name_bytes(old_entries[p as int].name@),
                        );
                        lemma_lex_transitive(
                            name_bytes(old_entries[a].name@),
                            name_bytes(old_entries[p as int].name@),
                            name_bytes(old_entries[b - 1].name@),
                        );
                    }
                }
            }
            assert forall|k: int| 0 <= k < next.len() implies exists|r: int|
                0 <= r < entries@.len() && #[trigger] entries@[r].name@
                    == #[trigger] next[k].name@ by {
                if k < seen.len() {
                    let r = choose|r: int|
                        0 <= r < old_entries.len() && #[trigger] old_entries[r].name@
                            == #[trigger] seen[k].name@;
                    assert(next[k] == seen[k]);
                    if r < p {
                        assert(entries@[r].name@ == old_entries[r].name@);
                    } else {
                        assert(entries@[r + 1].name@ == old_entries[r].name@);
                    }
                } else {
                    assert(entries@[p as int].name@ == next[k].name@);
                }
            }
            assert forall|q: int| 0 <= q < entries@.len() implies {
                &&& has_name(next, #[trigger] entries@[q].name@)
                &&& entries@[q].size == named_size(next, entries@[q].name@)
                &&& entries@[q].color@ == first_color(next, entries@[q].name@)
            } by {
                lemma_edges_push(seen, *edge, entries@[q].name@);
                if q < p {
                    assert(has_name(seen, old_entries[q].name@));
                    assert(old_entries[q].size == named_size(seen, old_entries[q].name@));
                } else if q > p {
                    assert(has_name(seen, old_entries[q - 1].name@));
                    assert(old_entries[q - 1].size == named_size(
                        seen,
                        old_entries[q - 1].name@,
                    ));
                }
            }
        }
    }
    *total_size = new_total;
    proof {
        assert forall|k: int| 0 <= k <= next.len() implies #[trigger] fits_i64(
            size_sum(next.take(k)),
        ) by {
            if k == next.len() {
                assert(next.take(k) =~= next);
            } else {
                assert(next.take(k) =~= seen.take(k));
            }
        }
        assert forall|k: int, name: Seq<char>| 0 <= k <= next.len() implies #[trigger] fits_i64(
            named_size(next.take(k), name),
        ) by {
            if k == next.len() {
                assert(next.take(k) =~= next);
                if name == edge.name@ {
                    let r = choose|r: int|
                        0 <= r < entries@.len() && #[trigger] entries@[r].name@
                            == #[trigger] next[seen.len() as int].name@;
                    assert(entries@[r].size == named_size(next, name));
                } else {
                    assert(fits_i64(named_size(seen.take(seen.len() as int), name)));
                }
            } else {
                assert(next.take(k) =~= seen.take(k));
            }
        }
    }
    true
}

/// The languages of all repositories in byte order of their names, each with the
/// bytes of code written in it and the color of its first appearance, and the
/// bytes of code of all languages.
pub fn aggregate_languages(repos: &Vec<RepoNode>) -> (totals: Option<LanguageTotals>)
    ensures
        totals is Some <==> language_sums_fit(all_edges(repos@)),
        totals matches Some(t) ==> summarizes(t.entries@, all_edges(repos@)),
        totals matches Some(t) ==> t.total_size == size_sum(all_edges(repos@)),
        totals matches Some(t) ==> t.total_size == sum_of(entry_sizes(t.entries@)),
{
    let ghost all = all_edges(repos@);
    let mut entries: Vec<LanguageTotal> = Vec::new();
    let mut total_size: i64 = 0;
    let mut i: usize = 0;
    while i < repos.len()
        invariant
            i <= repos@.len(),
            all == all_edges(repos@),
            language_sums_fit(all_edges(repos@.take(i as int))),
            summarizes(entries@, all_edges(repos@.take(i as int))),
            total_size == size_sum(all_edges(repos@.take(i as int))),
            total_size == sum_of(entry_sizes(entries@)),
        decreases repos@.len() - i,
    {
        let ghost done = all_edges(repos@.take(i as int));
        let edges = &repos[i].languages;
        proof {
            assert(repos@.take(i + 1).drop_last() =~= repos@.take(i as int));
            assert(all_edges(repos@.take(i + 1)) == done + edges@);
            lemma_all_edges_prefix(repos@, i + 1);
        }
        let mut j: usize = 0;
        while j < edges.len()
            invariant
                i < repos@.len(),
                edges == &repos@[i as int].languages,
                j <= edges@.len(),
                all == all_edges(repos@),
                language_sums_fit(done + edges@.take(j as int)),
                done == all_edges(repos@.take(i as int)),
                all_edges(repos@.take(i + 1)) == done + edges@,
                all_edges(repos@.take(i + 1)).len() <= all.len(),
                all_edges(repos@.take(i + 1)) =~= all.take(
                    all_edges(repos@.take(i + 1)).len() as int,
                ),
                summarizes(entries@, done + edges@.take(j as int)),
                total_size == size_sum(done + edges@.take(j as int)),
                total_size == sum_of(entry_sizes(entries@)),
            decreases edges@.len() - j,
        {
            let ghost seen = done + edges@.take(j as int);
            let ghost next = done + edges@.take(j + 1);
            let edge = &edges[j];
            proof {
                assert(next =~= seen.push(*edge));
                assert(next =~= (done + edges@).take(next.len() as int));
                assert(all.take(all_edges(repos@.take(i + 1)).len() as int).take(
                    next.len() as int,
                ) =~= all.take(next.len() as int));
                assert(next =~= all.take(next.len() as int));
            }
            if !add_edge(&mut entries, &mut total_size, edge, Ghost(seen)) {
                proof {
                    if language_sums_fit(all) {
                        assert(fits_i64(size_sum(all.take(next.len() as int))));
                        assert(fits_i64(named_size(all.take(next.len() as int), edge.name@)));
                    }
                }
                return None;
            }
            j = j + 1;
        }
        assert(edges@.take(edges@.len() as int) =~= edges@);
        i = i + 1;
    }
    assert(repos@.take(repos@.len() as int) =~= repos@);
    Some(LanguageTotals { entries, total_size })
}

// ----- The largest shares -----

/// The percentages of the language shares, in order.
pub open spec fn stat_percents(stats: Seq<LanguageStat>) -> Seq<i64> {
    stats.map_values(|s: LanguageStat| s.percent)
}

/// The five languages with the largest shares, ordered by share, highest first
/// (languages with equal shares keep their order); all of them where there are fewer.
pub open spec fn top_languages(stats: Seq<LanguageStat>) -> Seq<LanguageStatView> {
    Seq::new(
        if stats.len() < 5 {
            stats.len()
        } else {
            5
        },
        |t: int| stats[item_of_rank(stat_percents(stats), t)]@,
    )
}

/// The language shares of the card's languages: each summed-up language with its
/// share in percent from `percents`, in the same order.
pub open spec fn language_shares(entries: Seq<LanguageTotal>, percents: Seq<i64>) -> Seq<
    LanguageStatView,
> {
    Seq::new(
        entries.len(),
        |i: int|
            LanguageStatView {
                name: entries[i].name@,
                percent: percents[i],
                color: entries[i].color@,
            },
    )
}

/// The percentages of language shares, in order.
pub open spec fn share_percents(shares: Seq<LanguageStatView>) -> Seq<i64> {
    shares.map_values(|s: LanguageStatView| s.percent)
}

/// The five largest language shares, highest first (equal shares keep their
/// order); all of them where there are fewer.
pub open spec fn top_shares(shares: Seq<LanguageStatView>) -> Seq<LanguageStatView> {
    Seq::new(
        if shares.len() < 5 {
            shares.len()
        } else {
            5
        },
        |t: int| shares[item_of_rank(share_percents(shares), t)],
    )
}

/// Ranking language shares gives the same whether they are held as strings or as
/// their views.
pub proof fn lemma_top_languages_of_views(stats: Seq<LanguageStat>, shares: Seq<LanguageStatView>)
    requires
        stats.map_values(|s: LanguageStat| s@) == shares,
    ensures
        top_languages(stats) == top_shares(shares),
{
    assert(stat_percents(stats) =~= share_percents(shares)) by {
        assert forall|i: int| 0 <= i < stats.len() implies stat_percents(stats)[i] == share_percents(
            shares,
        )[i] by {
            assert(shares[i] == stats[i]@);
        }
    }
    assert forall|t: int| 0 <= t < top_languages(stats).len() implies top_languages(stats)[t]
        == top_shares(shares)[t] by {
        let k = item_of_rank(stat_percents(stats), t);
        lemma_rank_onto(stat_percents(stats), t);
        assert(shares[k] == stats[k]@);
    }
    assert(top_languages(stats) =~= top_shares(shares));
}

/// A copy of a language share.
fn copy_stat(stat: &LanguageStat) -> (copy: LanguageStat)
    ensures
        copy@ == stat@,
{
    LanguageStat { name: stat.name.clone(), percent: stat.percent, color: stat.color.clone() }
}

/// The five languages with the largest shares, highest first.
pub fn rank_languages(stats: &Vec<LanguageStat>) -> (ranked: Vec<LanguageStat>)
    ensures
        ranked@.map_values(|s: LanguageStat| s@) == top_languages(stats@),
{
    let n = stats.len();
    let mut percents: Vec<i64> = Vec::new();
    let mut k: usize = 0;
    while k < n
        invariant
            k <= n,
            n == stats@.len(),
            percents@ == stat_percents(stats@).take(k as int),
        decreases n - k,
    {
        percents.push(stats[k].percent);
        k = k + 1;
    }
    assert(percents@ =~= stat_percents(stats@));
    let order = stable_order_desc(&percents);
    let limit: usize = if n < 5 {
        n
    } else {
        5
    };
    let mut ranked: Vec<LanguageStat> = Vec::new();
    let mut t: usize = 0;
    while t < limit
        invariant
            t <= limit,
            limit <= n,
            n == stats@.len(),
            percents@ == stat_percents(stats@),
            order@.len() == n,
            forall|r: int| 0 <= r < n ==> #[trigger] order@[r] == item_of_rank(percents@, r),
            ranked@.len() == t,
            forall|r: int|
                0 <= r < t ==> #[trigger] ranked@[r]@ == stats@[item_of_rank(percents@, r)]@,
        decreases limit - t,
    {
        proof {
            lemma_rank_onto(percents@, t as int);
        }
        let i = order[t];
        ranked.push(copy_stat(&stats[i]));
        t = t + 1;
    }
    assert(ranked@.map_values(|s: LanguageStat| s@) =~= top_languages(stats@));
    ranked
}

} // verus!
