//! Relay counts per country, ranked.
//!
//! Country codes are upper-cased before they are counted, so that spellings
//! that differ only in case fall into one bucket. A relay without a country
//! code is not counted here. The ranking puts the larger count first and,
//! among equal counts, the code that comes first in the dictionary.

use vstd::prelude::*;
use crate::relay::{relay_views, Relay, RelayView};
use crate::text::{
    lemma_precedes_irreflexive,
    lemma_precedes_total,
    lemma_precedes_transitive,
    precedes,
    text_precedes,
    to_uppercase,
    uppercase_of,
};

verus! {

/// The code under which one relay is counted, or none for a relay that is
/// not counted.
pub type Code = Option<Seq<char>>;

/// One line of the ranking: a code and its count.
pub type Entry = (Seq<char>, nat);

/// The codes that are `code`.
pub open spec fn is_code(code: Seq<char>) -> spec_fn(Code) -> bool {
    |c: Code| c == Some(code)
}

/// How often `code` occurs among `codes`.
pub open spec fn code_count(codes: Seq<Code>, code: Seq<char>) -> nat {
    codes.filter(is_code(code)).len()
}

/// The order of the ranking: the larger count first; among equal counts the
/// code that precedes the other.
pub open spec fn ranks_before(a: Entry, b: Entry) -> bool {
    a.1 > b.1 || (a.1 == b.1 && precedes(a.0, b.0))
}

/// Whether `ranking` is in strictly ascending rank order.
pub open spec fn ranked(ranking: Seq<Entry>) -> bool {
    forall|i: int, j: int| 0 <= i < j < ranking.len() ==> ranks_before(ranking[i], ranking[j])
}

/// Whether `ranking` is the ranking of `codes`: each entry carries the
/// count of its code, which is not zero; the entries are in rank order, so
/// that no code occurs twice; and every code that occurs has an entry.
pub open spec fn is_ranking(codes: Seq<Code>, ranking: Seq<Entry>) -> bool {
    &&& forall|i: int|
        0 <= i < ranking.len() ==> (#[trigger] ranking[i]).1 > 0 && ranking[i].1 == code_count(
            codes,
            ranking[i].0,
        )
    &&& ranked(ranking)
    &&& forall|k: int|
        0 <= k < codes.len() && (#[trigger] codes[k]) is Some ==> exists|i: int|
            0 <= i < ranking.len() && (#[trigger] ranking[i]).0 == codes[k].unwrap()
}

/// The ranking of `codes`. There is exactly one: see
/// [`lemma_ranking_unique`] and [`rank_codes`].
pub open spec fn ranking_of(codes: Seq<Code>) -> Seq<Entry> {
    choose|ranking: Seq<Entry>| is_ranking(codes, ranking)
}

/// The bucket a relay is counted in: its country code in upper case. A
/// relay without a country code has none.
pub open spec fn relay_code(r: RelayView) -> Code {
    match r.country {
        Some(code) => Some(uppercase_of(code)),
        None => None,
    }
}

/// The buckets of the relays of a census, relay by relay.
pub open spec fn relay_codes(relays: Seq<RelayView>) -> Seq<Code> {
    relays.map_values(|r: RelayView| relay_code(r))
}

/// The ranking of the countries of a census.
pub open spec fn country_ranking(relays: Seq<RelayView>) -> Seq<Entry> {
    ranking_of(relay_codes(relays))
}

/// The models of the entries of a ranking.
pub open spec fn entry_views(entries: Seq<(String, usize)>) -> Seq<Entry> {
    entries.map_values(|e: (String, usize)| (e.0@, e.1 as nat))
}

/// The model of a code.
pub open spec fn code_view(code: Option<String>) -> Code {
    match code {
        Some(text) => Some(text@),
        None => None,
    }
}

/// The models of a sequence of codes.
pub open spec fn code_views(codes: Seq<Option<String>>) -> Seq<Code> {
    codes.map_values(|c: Option<String>| code_view(c))
}

/// Counting one more code adds one to the count of that code and nothing to
/// the others; no count exceeds the number of codes.
pub proof fn lemma_count_push(codes: Seq<Code>, c: Code, code: Seq<char>)
    ensures
        code_count(codes.push(c), code) == code_count(codes, code) + (if c == Some(code) {
            1nat
        } else {
            0nat
        }),
        code_count(codes, code) <= codes.len(),
{
    codes.lemma_filter_push(c, is_code(code));
    codes.lemma_filter_len(is_code(code));
}

/// A code is counted above zero exactly when it occurs.
pub proof fn lemma_count_positive(codes: Seq<Code>, code: Seq<char>)
    ensures
        code_count(codes, code) > 0 <==> exists|k: int|
            0 <= k < codes.len() && #[trigger] codes[k] == Some(code),
    decreases codes.len(),
{
    if codes.len() == 0 {
        codes.lemma_filter_len(is_code(code));
    } else {
        let front = codes.drop_last();
        let last = codes.last();
        assert(codes =~= front.push(last));
        lemma_count_positive(front, code);
        lemma_count_push(front, last, code);
        if code_count(codes, code) > 0 {
            if last == Some(code) {
                assert(codes[codes.len() - 1] == Some(code));
            } else {
                let k = choose|k: int| 0 <= k < front.len() && #[trigger] front[k] == Some(code);
                assert(codes[k] == Some(code));
            }
        }
        if exists|k: int| 0 <= k < codes.len() && #[trigger] codes[k] == Some(code) {
            let k = choose|k: int| 0 <= k < codes.len() && #[trigger] codes[k] == Some(code);
            if k < front.len() {
                assert(front[k] == Some(code));
            }
        }
    }
}

/// No entry ranks before itself, and of two entries at most one ranks before
/// the other.
pub proof fn lemma_ranks_before_asymmetric(a: Entry, b: Entry)
    ensures
        !(ranks_before(a, b) && ranks_before(b, a)),
        !ranks_before(a, a),
{
    lemma_precedes_total(a.0, b.0);
    lemma_precedes_irreflexive(a.0);
}

/// Of two entries with different codes one ranks before the other.
pub proof fn lemma_ranks_before_total(a: Entry, b: Entry)
    requires
        a.0 != b.0,
    ensures
        ranks_before(a, b) || ranks_before(b, a),
{
    lemma_precedes_total(a.0, b.0);
}

/// The rank order is transitive.
pub proof fn lemma_ranks_before_transitive(a: Entry, b: Entry, c: Entry)
    requires
        ranks_before(a, b),
        ranks_before(b, c),
    ensures
        ranks_before(a, c),
{
    if a.1 == b.1 && b.1 == c.1 {
        lemma_precedes_transitive(a.0, b.0, c.0);
    }
}

/// Two sequences in rank order that hold the same entries are the same
/// sequence.
pub proof fn lemma_ranked_same_entries(a: Seq<Entry>, b: Seq<Entry>)
    requires
        ranked(a),
        ranked(b),
        forall|i: int| 0 <= i < a.len() ==> b.contains(#[trigger] a[i]),
        forall|j: int| 0 <= j < b.len() ==> a.contains(#[trigger] b[j]),
    ensures
        a == b,
    decreases a.len(),
{
    if a.len() == 0 {
        if b.len() > 0 {
            assert(a.contains(b[0]));
        }
        assert(a =~= b);
    } else if b.len() == 0 {
        assert(b.contains(a[0]));
    } else {
        assert(b.contains(a[0]));
        assert(a.contains(b[0]));
        let j = choose|j: int| 0 <= j < b.len() && b[j] == a[0];
        let i = choose|i: int| 0 <= i < a.len() && a[i] == b[0];
        lemma_ranks_before_asymmetric(a[0], b[0]);
        assert(a[0] == b[0]) by {
            if j > 0 {
                assert(ranks_before(b[0], b[j]));
                if i > 0 {
                    assert(ranks_before(a[0], a[i]));
                }
            }
        }
        let at = a.drop_first();
        let bt = b.drop_first();
        assert forall|p: int| 0 <= p < at.len() implies bt.contains(#[trigger] at[p]) by {
            assert(at[p] == a[p + 1]);
            assert(b.contains(a[p + 1]));
            let q = choose|q: int| 0 <= q < b.len() && b[q] == a[p + 1];
            assert(ranks_before(a[0], a[p + 1]));
            lemma_ranks_before_asymmetric(a[0], a[0]);
            assert(q != 0);
            assert(bt[q - 1] == at[p]);
        }
        assert forall|q: int| 0 <= q < bt.len() implies at.contains(#[trigger] bt[q]) by {
            assert(bt[q] == b[q + 1]);
            assert(a.contains(b[q + 1]));
            let p = choose|p: int| 0 <= p < a.len() && a[p] == b[q + 1];
            assert(ranks_before(b[0], b[q + 1]));
            lemma_ranks_before_asymmetric(b[0], b[0]);
            assert(p != 0);
            assert(at[p - 1] == bt[q]);
        }
        assert(ranked(at)) by {
            assert forall|x: int, y: int| 0 <= x < y < at.len() implies ranks_before(
                at[x],
                at[y],
            ) by {
                assert(ranks_before(a[x + 1], a[y + 1]));
            }
        }
        assert(ranked(bt)) by {
            assert forall|x: int, y: int| 0 <= x < y < bt.len() implies ranks_before(
                bt[x],
                bt[y],
            ) by {
                assert(ranks_before(b[x + 1], b[y + 1]));
            }
        }
        lemma_ranked_same_entries(at, bt);
        assert(a =~= seq![a[0]] + at);
        assert(b =~= seq![b[0]] + bt);
    }
}

/// There is at most one ranking: the rank order and the counts leave nothing
/// open, so the result does not depend on the order in which the codes are
/// counted.
pub proof fn lemma_ranking_unique(codes: Seq<Code>, a: Seq<Entry>, b: Seq<Entry>)
    requires
        is_ranking(codes, a),
        is_ranking(codes, b),
    ensures
        a == b,
{
    assert forall|i: int| 0 <= i < a.len() implies b.contains(#[trigger] a[i]) by {
        lemma_ranking_holds(codes, a, b, i);
    }
    assert forall|j: int| 0 <= j < b.len() implies a.contains(#[trigger] b[j]) by {
        lemma_ranking_holds(codes, b, a, j);
    }
    lemma_ranked_same_entries(a, b);
}

/// An entry of one ranking is an entry of every other.
proof fn lemma_ranking_holds(codes: Seq<Code>, a: Seq<Entry>, b: Seq<Entry>, i: int)
    requires
        is_ranking(codes, a),
        is_ranking(codes, b),
        0 <= i < a.len(),
    ensures
        b.contains(a[i]),
{
    let code = a[i].0;
    assert(a[i].1 > 0 && a[i].1 == code_count(codes, code));
    lemma_count_positive(codes, code);
    let k = choose|k: int| 0 <= k < codes.len() && #[trigger] codes[k] == Some(code);
    assert(codes[k] is Some);
    let j = choose|j: int| 0 <= j < b.len() && (#[trigger] b[j]).0 == codes[k].unwrap();
    assert(b[j].1 == code_count(codes, b[j].0));
    assert(b[j] == a[i]);
}

/// Decides [`ranks_before`] for two entries.
fn entry_ranks_before(a_code: &String, a_count: usize, b_code: &String, b_count: usize) -> (r:
    bool)
    ensures
        r == ranks_before((a_code@, a_count as nat), (b_code@, b_count as nat)),
{
    a_count > b_count || (a_count == b_count && text_precedes(a_code.as_str(), b_code.as_str()))
}

/// The index of `code` among `names`, if it is there.
fn find_code(names: &Vec<String>, code: &String) -> (found: Option<usize>)
    ensures
        match found {
            Some(j) => j < names.len() && names@[j as int]@ == code@,
            None => forall|j: int| 0 <= j < names.len() ==> (#[trigger] names@[j])@ != code@,
        },
{
    let mut j: usize = 0;
    while j < names.len()
        invariant
            j <= names.len(),
            forall|q: int| 0 <= q < j ==> (#[trigger] names@[q])@ != code@,
        decreases names.len() - j,
    {
        if names[j] == *code {
            return Some(j);
        }
        j += 1;
    }
    None
}

/// What the grouping pass has reached after the codes `seen`: the codes met
/// so far, each once and with its count.
spec fn grouped(seen: Seq<Code>, names: Seq<String>, counts: Seq<usize>) -> bool {
    &&& names.len() == counts.len()
    &&& forall|j: int|
        0 <= j < names.len() ==> (#[trigger] counts[j]) > 0 && counts[j] == code_count(
            seen,
            names[j]@,
        )
    &&& forall|j: int, q: int|
        0 <= j < names.len() && 0 <= q < names.len() && j != q ==> (#[trigger] names[j])@ != (
        #[trigger] names[q])@
    &&& forall|k: int|
        0 <= k < seen.len() && (#[trigger] seen[k]) is Some ==> exists|j: int|
            0 <= j < names.len() && (#[trigger] names[j])@ == seen[k].unwrap()
}

/// Counts each code, the codes in the order in which they are first met.
fn group_codes(codes: &Vec<Option<String>>) -> (groups: (Vec<String>, Vec<usize>))
    ensures
        grouped(code_views(codes@), groups.0@, groups.1@),
{
    let ghost all = code_views(codes@);
    let mut names: Vec<String> = Vec::new();
    let mut counts: Vec<usize> = Vec::new();
    let mut i: usize = 0;
    assert(all.take(0).len() == 0);
    while i < codes.len()
        invariant
            i <= codes.len(),
            all == code_views(codes@),
            grouped(all.take(i as int), names@, counts@),
        decreases codes.len() - i,
    {
        let ghost seen = all.take(i as int);
        let ghost next = all.take(i + 1);
        let ghost c = all[i as int];
        let ghost old_names = names@;
        let ghost old_counts = counts@;
        proof {
            assert(next =~= seen.push(c));
            assert(c == code_view(codes@[i as int]));
            assert forall|code: Seq<char>|
                code_count(next, code) == code_count(seen, code) + (if c == Some(code) {
                    1nat
                } else {
                    0nat
                }) && code_count(seen, code) <= seen.len() by {
                lemma_count_push(seen, c, code);
            }
        }
        match &codes[i] {
            Some(code) => {
                assert(c == Some(code@));
                match find_code(&names, code) {
                    Some(j) => {
                        let bumped = counts[j] + 1;
                        counts.set(j, bumped);
                        proof {
                            assert forall|k: int|
                                0 <= k < next.len() && (
                                #[trigger] next[k]) is Some implies exists|q: int|
                                0 <= q < names@.len() && (#[trigger] names@[q])@
                                    == next[k].unwrap() by {
                                if k < seen.len() {
                                    assert(next[k] == seen[k]);
                                } else {
                                    assert(names@[j as int]@ == code@);
                                }
                            }
                        }
                    },
                    None => {
                        proof {
                            lemma_count_positive(seen, code@);
                            if code_count(seen, code@) > 0 {
                                let k = choose|k: int|
                                    0 <= k < seen.len() && #[trigger] seen[k] == Some(code@);
                                assert(seen[k] is Some);
                            }
                        }
                        names.push(code.clone());
                        counts.push(1);
                        proof {
                            let last = names@.len() - 1;
                            assert forall|k: int|
                                0 <= k < next.len() && (
                                #[trigger] next[k]) is Some implies exists|q: int|
                                0 <= q < names@.len() && (#[trigger] names@[q])@
                                    == next[k].unwrap() by {
                                if k < seen.len() {
                                    assert(next[k] == seen[k]);
                                    let q = choose|q: int|
                                        0 <= q < old_names.len() && (#[trigger] old_names[q])@
                                            == seen[k].unwrap();
                                    assert(names@[q]@ == next[k].unwrap());
                                } else {
                                    assert(names@[last]@ == code@);
                                }
                            }
                            assert forall|j: int| 0 <= j < names@.len() implies (
                            #[trigger] counts@[j]) > 0 && counts@[j] == code_count(
                                next,
                                names@[j]@,
                            ) by {
                                if j < old_names.len() {
                                    assert(names@[j] == old_names[j]);
                                    assert(counts@[j] == old_counts[j]);
                                }
                            }
                        }
                    },
                }
            },
            None => {
                proof {
                    assert(c is None);
                    assert forall|k: int|
                        0 <= k < next.len() && (#[trigger] next[k]) is Some implies exists|q: int|
                        0 <= q < names@.len() && (#[trigger] names@[q])@ == next[k].unwrap() by {
                        assert(k < seen.len());
                        assert(next[k] == seen[k]);
                    }
                }
            },
        }
        i += 1;
    }
    assert(all.take(i as int) =~= all);
    (names, counts)
}

/// Counts how often each code occurs and ranks the codes: the larger count
/// first, equal counts in the dictionary order of their codes. Codes are
/// compared as they stand; `None` is not counted.
pub fn rank_codes(codes: &Vec<Option<String>>) -> (ranking: Vec<(String, usize)>)
    ensures
        is_ranking(code_views(codes@), entry_views(ranking@)),
        entry_views(ranking@) == ranking_of(code_views(codes@)),
{
    let ghost all = code_views(codes@);
    let (names, counts) = group_codes(codes);
    let mut ranking: Vec<(String, usize)> = Vec::new();
    let mut g: usize = 0;
    while g < names.len()
        invariant
            g <= names.len(),
            grouped(all, names@, counts@),
            ranked(entry_views(ranking@)),
            forall|q: int|
                0 <= q < ranking@.len() ==> exists|j: int|
                    0 <= j < g && #[trigger] entry_views(ranking@)[q] == (
                        (#[trigger] names@[j])@,
                        counts@[j] as nat,
                    ),
            forall|j: int|
                0 <= j < g ==> entry_views(ranking@).contains(
                    ((#[trigger] names@[j])@, counts@[j] as nat),
                ),
        decreases names.len() - g,
    {
        let code = names[g].clone();
        let count = counts[g];
        let ghost entry: Entry = (code@, count as nat);
        let ghost before = entry_views(ranking@);
        let mut p: usize = 0;
        while p < ranking.len() && !entry_ranks_before(&code, count, &ranking[p].0, ranking[p].1)
            invariant
                p <= ranking.len(),
                before == entry_views(ranking@),
                entry == (code@, count as nat),
                forall|q: int| 0 <= q < p ==> !ranks_before(entry, #[trigger] before[q]),
            decreases ranking.len() - p,
        {
            p += 1;
        }
        ranking.insert(p, (code, count));
        proof {
            let after = entry_views(ranking@);
            assert(after =~= before.insert(p as int, entry));
            assert forall|x: int, y: int| 0 <= x < y < after.len() implies ranks_before(
                after[x],
                after[y],
            ) by {
                if y < p {
                    assert(after[x] == before[x] && after[y] == before[y]);
                } else if y == p {
                    assert(after[x] == before[x]);
                    let j = choose|j: int|
                        0 <= j < g && #[trigger] before[x] == (
                            (#[trigger] names@[j])@,
                            counts@[j] as nat,
                        );
                    assert(names@[j]@ != names@[g as int]@);
                    lemma_ranks_before_total(before[x], entry);
                } else if x < p {
                    assert(after[x] == before[x] && after[y] == before[y - 1]);
                } else if x == p {
                    assert(after[y] == before[y - 1]);
                    assert(ranks_before(entry, before[p as int]));
                    if y - 1 > p {
                        assert(ranks_before(before[p as int], before[y - 1]));
                        lemma_ranks_before_transitive(entry, before[p as int], before[y - 1]);
                    }
                } else {
                    assert(after[x] == before[x - 1] && after[y] == before[y - 1]);
                }
            }
            assert forall|q: int| 0 <= q < after.len() implies exists|j: int|
                0 <= j < g + 1 && #[trigger] after[q] == (
                    (#[trigger] names@[j])@,
                    counts@[j] as nat,
                ) by {
                if q == p {
                    assert(after[q] == ((names@[g as int])@, counts@[g as int] as nat));
                } else {
                    let b = if q < p {
                        q
                    } else {
                        q - 1
                    };
                    assert(after[q] == before[b]);
                    let j = choose|j: int|
                        0 <= j < g && #[trigger] before[b] == (
                            (#[trigger] names@[j])@,
                            counts@[j] as nat,
                        );
                    assert(after[q] == ((names@[j])@, counts@[j] as nat));
                }
            }
            assert forall|j: int| 0 <= j < g + 1 implies after.contains(
                ((#[trigger] names@[j])@, counts@[j] as nat),
            ) by {
                if j == g {
                    assert(after[p as int] == entry);
                } else {
                    let e = ((names@[j])@, counts@[j] as nat);
                    assert(before.contains(e));
                    let q = choose|q: int| 0 <= q < before.len() && before[q] == e;
                    if q < p {
                        assert(after[q] == e);
                    } else {
                        assert(after[q + 1] == e);
                    }
                }
            }
        }
        g += 1;
    }
    proof {
        let result = entry_views(ranking@);
        assert forall|i: int| 0 <= i < result.len() implies (#[trigger] result[i]).1 > 0
            && result[i].1 == code_count(all, result[i].0) by {
            let j = choose|j: int|
                0 <= j < g && #[trigger] result[i] == ((#[trigger] names@[j])@, counts@[j] as nat);
            assert(counts@[j] > 0);
        }
        assert forall|k: int| 0 <= k < all.len() && (#[trigger] all[k]) is Some implies exists|
            i: int,
        |
            0 <= i < result.len() && (#[trigger] result[i]).0 == all[k].unwrap() by {
            let j = choose|j: int|
                0 <= j < names@.len() && (#[trigger] names@[j])@ == all[k].unwrap();
            let e = ((names@[j])@, counts@[j] as nat);
            assert(result.contains(e));
            let i = choose|i: int| 0 <= i < result.len() && result[i] == e;
            assert(result[i].0 == all[k].unwrap());
        }
        assert(is_ranking(all, result));
        lemma_ranking_unique(all, result, ranking_of(all));
    }
    ranking
}

/// The bucket of each relay of a census: its country code in upper case, or
/// none where it has no country code.
pub fn country_codes(relays: &Vec<Relay>) -> (codes: Vec<Option<String>>)
    ensures
        code_views(codes@) == relay_codes(relay_views(relays@)),
{
    let mut codes: Vec<Option<String>> = Vec::new();
    let mut i: usize = 0;
    while i < relays.len()
        invariant
            i <= relays.len(),
            code_views(codes@) == relay_codes(relay_views(relays@).take(i as int)),
        decreases relays.len() - i,
    {
        let ghost before = codes@;
        let code = match &relays[i].country {
            Some(country) => Some(to_uppercase(country.as_str())),
            None => None,
        };
        assert(code_view(code) == relay_code(relays@[i as int]@));
        codes.push(code);
        assert(code_views(codes@) =~= code_views(before).push(code_view(code)));
        assert(code_views(codes@) =~= relay_codes(relay_views(relays@).take(i + 1)));
        i += 1;
    }
    assert(relay_views(relays@).take(i as int) =~= relay_views(relays@));
    codes
}

/// Counts the relays of each country and ranks the countries: the larger
/// count first, equal counts in the dictionary order of their codes. Codes
/// are counted in upper case; a relay without a country code is left out.
pub fn country_counts(relays: &Vec<Relay>) -> (ranking: Vec<(String, usize)>)
    ensures
        is_ranking(relay_codes(relay_views(relays@)), entry_views(ranking@)),
        entry_views(ranking@) == country_ranking(relay_views(relays@)),
{
    let codes = country_codes(relays);
    rank_codes(&codes)
}

} // verus!
