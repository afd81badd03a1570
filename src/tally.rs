use vstd::prelude::*;

use crate::model::Candidate;

verus! {

/// Sum of the vote counts of `s`.
pub open spec fn total_votes(s: Seq<Candidate>) -> nat
    decreases s.len(),
{
    if s.len() == 0 {
        0
    } else {
        total_votes(s.drop_last()) + s.last().vote_count as nat
    }
}

/// Largest vote count in `s`, 0 for no candidates.
pub open spec fn max_votes(s: Seq<Candidate>) -> u64
    decreases s.len(),
{
    if s.len() == 0 {
        0
    } else if s.last().vote_count > max_votes(s.drop_last()) {
        s.last().vote_count
    } else {
        max_votes(s.drop_last())
    }
}

/// Number of candidates of `s` holding exactly `v` votes.
pub open spec fn count_with_votes(s: Seq<Candidate>, v: u64) -> nat
    decreases s.len(),
{
    if s.len() == 0 {
        0
    } else {
        count_with_votes(s.drop_last(), v) + if s.last().vote_count == v {
            1nat
        } else {
            0nat
        }
    }
}

/// Candidate ids strictly increase along `s` (hence are unique).
pub open spec fn ids_increasing(s: Seq<Candidate>) -> bool {
    forall|i: int, j: int| 0 <= i < j < s.len() ==> s[i].id < s[j].id
}

/// `a` ranks above `b`: more votes, or as many votes and a smaller id.
pub open spec fn ranks_above(a: Candidate, b: Candidate) -> bool {
    a.vote_count > b.vote_count || (a.vote_count == b.vote_count && a.id < b.id)
}

pub open spec fn no_winner_text() -> Seq<char> {
    "No winner"@
}

pub open spec fn tied_text() -> Seq<char> {
    "Election tied"@
}

pub open spec fn declared_text() -> Seq<char> {
    "Winner declared"@
}

/// The outcome `(id, name, votes, status)` of a finished election over `s`:
/// no votes at all gives the "No winner" sentinel, several candidates at
/// the maximum give the "Election tied" sentinel carrying that maximum,
/// and otherwise the unique leader is declared.
pub open spec fn is_outcome(s: Seq<Candidate>, r: (u64, String, u64, String)) -> bool {
    let m = max_votes(s);
    if m == 0 {
        r.0 == 0 && r.1@.len() == 0 && r.2 == 0 && r.3@ == no_winner_text()
    } else if count_with_votes(s, m) > 1 {
        r.0 == 0 && r.1@.len() == 0 && r.2 == m && r.3@ == tied_text()
    } else {
        exists|i: int|
            0 <= i < s.len() && #[trigger] s[i].vote_count == m && r.0 == s[i].id && r.1@
                == s[i].name@ && r.2 == m && r.3@ == declared_text()
    }
}

/// Every vote count is at most the maximum, and every count above the
/// maximum is held by nobody.
pub proof fn lemma_max_bounds(s: Seq<Candidate>)
    ensures
        forall|i: int| 0 <= i < s.len() ==> #[trigger] s[i].vote_count <= max_votes(s),
        forall|v: u64| v > max_votes(s) ==> #[trigger] count_with_votes(s, v) == 0,
    decreases s.len(),
{
    if s.len() > 0 {
        lemma_max_bounds(s.drop_last());
        assert forall|i: int| 0 <= i < s.len() implies #[trigger] s[i].vote_count <= max_votes(
            s,
        ) by {
            if i < s.len() - 1 {
                assert(s.drop_last()[i] == s[i]);
            }
        }
        assert forall|v: u64| v > max_votes(s) implies #[trigger] count_with_votes(s, v) == 0 by {
            assert(count_with_votes(s.drop_last(), v) == 0);
        }
    }
}

/// Two distinct candidates holding `v` votes make a count of at least two,
/// and one makes a count of at least one.
pub proof fn lemma_count_witnesses(s: Seq<Candidate>, v: u64, i: int, j: int)
    requires
        0 <= i < s.len(),
        0 <= j < s.len(),
        s[i].vote_count == v,
        s[j].vote_count == v,
    ensures
        count_with_votes(s, v) >= 1,
        i != j ==> count_with_votes(s, v) >= 2,
    decreases s.len(),
{
    let last = s.len() - 1;
    if i < last && j < last {
        lemma_count_witnesses(s.drop_last(), v, i, j);
    } else if i < last {
        lemma_count_witnesses(s.drop_last(), v, i, i);
    } else if j < last {
        lemma_count_witnesses(s.drop_last(), v, j, j);
    }
}

/// The outcome of an election is a function of its candidates: any two
/// results that both meet `is_outcome` name the same id, the same name,
/// the same vote count and the same status. Among candidates tied at the
/// top no one is preferred, since a tie yields the sentinel.
pub proof fn lemma_outcome_determined(
    s: Seq<Candidate>,
    r1: (u64, String, u64, String),
    r2: (u64, String, u64, String),
)
    requires
        is_outcome(s, r1),
        is_outcome(s, r2),
    ensures
        r1.0 == r2.0,
        r1.1@ == r2.1@,
        r1.2 == r2.2,
        r1.3@ == r2.3@,
{
    let m = max_votes(s);
    if m != 0 && count_with_votes(s, m) <= 1 {
        let i = choose|i: int|
            0 <= i < s.len() && #[trigger] s[i].vote_count == m && r1.0 == s[i].id && r1.1@
                == s[i].name@ && r1.2 == m && r1.3@ == declared_text();
        let j = choose|j: int|
            0 <= j < s.len() && #[trigger] s[j].vote_count == m && r2.0 == s[j].id && r2.1@
                == s[j].name@ && r2.2 == m && r2.3@ == declared_text();
        lemma_count_witnesses(s, m, i, j);
    }
}

/// Replacing one candidate moves the count of `v` by the difference.
proof fn lemma_count_update(s: Seq<Candidate>, i: int, c: Candidate, v: u64)
    requires
        0 <= i < s.len(),
    ensures
        count_with_votes(s.update(i, c), v) + (if s[i].vote_count == v {
            1nat
        } else {
            0nat
        }) == count_with_votes(s, v) + if c.vote_count == v {
            1nat
        } else {
            0nat
        },
    decreases s.len(),
{
    if i < s.len() - 1 {
        lemma_count_update(s.drop_last(), i, c, v);
        assert(s.update(i, c).drop_last() =~= s.drop_last().update(i, c));
    } else {
        assert(s.update(i, c).drop_last() =~= s.drop_last());
    }
}

/// A positive count has a witness.
proof fn lemma_count_witnessed(s: Seq<Candidate>, v: u64)
    requires
        count_with_votes(s, v) >= 1,
    ensures
        exists|i: int| 0 <= i < s.len() && #[trigger] s[i].vote_count == v,
    decreases s.len(),
{
    if s.last().vote_count != v {
        lemma_count_witnessed(s.drop_last(), v);
        let i = choose|i: int| 0 <= i < s.len() - 1 && #[trigger] s.drop_last()[i].vote_count == v;
        assert(s[i] == s.drop_last()[i]);
    } else {
        assert(s[s.len() - 1].vote_count == v);
    }
}

/// Some candidate holds the maximum.
proof fn lemma_max_attained(s: Seq<Candidate>)
    requires
        s.len() > 0,
    ensures
        exists|i: int| 0 <= i < s.len() && #[trigger] s[i].vote_count == max_votes(s),
    decreases s.len(),
{
    if s.len() > 1 && s.last().vote_count <= max_votes(s.drop_last()) {
        lemma_max_attained(s.drop_last());
        let i = choose|i: int|
            0 <= i < s.len() - 1 && #[trigger] s.drop_last()[i].vote_count == max_votes(s.drop_last());
        assert(s[i] == s.drop_last()[i]);
    } else {
        if s.len() == 1 {
            assert(max_votes(s.drop_last()) == 0);
        }
        assert(s[s.len() - 1].vote_count == max_votes(s));
    }
}

/// Sequences with the same counts for every vote total share their maximum.
proof fn lemma_max_from_counts(s: Seq<Candidate>, t: Seq<Candidate>)
    requires
        forall|v: u64| #[trigger] count_with_votes(s, v) == count_with_votes(t, v),
    ensures
        max_votes(s) == max_votes(t),
{
    lemma_max_bounds(s);
    lemma_max_bounds(t);
    if s.len() > 0 {
        lemma_max_attained(s);
        let i = choose|i: int| 0 <= i < s.len() && #[trigger] s[i].vote_count == max_votes(s);
        lemma_count_witnesses(s, max_votes(s), i, i);
        assert(count_with_votes(t, max_votes(s)) >= 1);
    }
    if t.len() > 0 {
        lemma_max_attained(t);
        let j = choose|j: int| 0 <= j < t.len() && #[trigger] t[j].vote_count == max_votes(t);
        lemma_count_witnesses(t, max_votes(t), j, j);
        assert(count_with_votes(s, max_votes(t)) >= 1);
    }
    if max_votes(s) < max_votes(t) {
        assert(count_with_votes(s, max_votes(t)) == 0);
    } else if max_votes(t) < max_votes(s) {
        assert(count_with_votes(t, max_votes(s)) == 0);
    }
}

/// `s` with the candidates at `i` and `j` exchanged.
pub open spec fn exchanged(s: Seq<Candidate>, i: int, j: int) -> Seq<Candidate> {
    s.update(i, s[j]).update(j, s[i])
}

/// The outcome does not depend on the order of the candidates: exchanging
/// any two of them leaves the set of acceptable results unchanged (and so,
/// step by step, does any reordering).
pub proof fn lemma_outcome_order_free(
    s: Seq<Candidate>,
    i: int,
    j: int,
    r: (u64, String, u64, String),
)
    requires
        0 <= i < s.len(),
        0 <= j < s.len(),
    ensures
        is_outcome(s, r) == is_outcome(exchanged(s, i, j), r),
{
    let t = exchanged(s, i, j);
    let u = s.update(i, s[j]);
    assert forall|v: u64| #[trigger] count_with_votes(s, v) == count_with_votes(t, v) by {
        lemma_count_update(s, i, s[j], v);
        lemma_count_update(u, j, s[i], v);
        if i == j {
            assert(u =~= s);
        }
    }
    lemma_max_from_counts(s, t);
    let m = max_votes(s);
    // where each candidate of `s` stands in `t`, and back
    let pos = |k: int|
        if k == i {
            j
        } else if k == j {
            i
        } else {
            k
        };
    assert forall|k: int| 0 <= k < s.len() implies #[trigger] t[pos(k)] == s[k] by {}
    assert forall|k: int| 0 <= k < s.len() implies #[trigger] s[pos(k)] == t[k] by {}
    if m != 0 && count_with_votes(s, m) <= 1 {
        if is_outcome(s, r) {
            let k = choose|k: int|
                0 <= k < s.len() && #[trigger] s[k].vote_count == m && r.0 == s[k].id && r.1@
                    == s[k].name@ && r.2 == m && r.3@ == declared_text();
            assert(t[pos(k)] == s[k]);
        }
        if is_outcome(t, r) {
            let k = choose|k: int|
                0 <= k < t.len() && #[trigger] t[k].vote_count == m && r.0 == t[k].id && r.1@
                    == t[k].name@ && r.2 == m && r.3@ == declared_text();
            assert(s[pos(k)] == t[k]);
        }
    }
}

/// `t` lists, place by place, candidates with the names and vote counts of
/// `s`; ids (and metadata) may differ.
pub open spec fn same_tallies(s: Seq<Candidate>, t: Seq<Candidate>) -> bool {
    &&& s.len() == t.len()
    &&& forall|k: int|
        0 <= k < s.len() ==> (#[trigger] t[k]).vote_count == s[k].vote_count && t[k].name@
            == s[k].name@
}

proof fn lemma_tallies_agree(s: Seq<Candidate>, t: Seq<Candidate>)
    requires
        same_tallies(s, t),
    ensures
        max_votes(s) == max_votes(t),
        forall|v: u64| #[trigger] count_with_votes(s, v) == count_with_votes(t, v),
    decreases s.len(),
{
    if s.len() > 0 {
        let (s0, t0) = (s.drop_last(), t.drop_last());
        assert forall|k: int| 0 <= k < s0.len() implies (#[trigger] t0[k]).vote_count
            == s0[k].vote_count && t0[k].name@ == s0[k].name@ by {
            assert(t0[k] == t[k] && s0[k] == s[k]);
        }
        lemma_tallies_agree(s0, t0);
        assert(t.last() == t[t.len() - 1]);
    }
    assert forall|v: u64| #[trigger] count_with_votes(s, v) == count_with_votes(t, v) by {
        if s.len() > 0 {
            assert(count_with_votes(s.drop_last(), v) == count_with_votes(t.drop_last(), v));
        }
    }
}

/// Relabelling candidates keeps the outcome: with the same names and vote
/// counts in the same places, a sentinel stays the same sentinel, and a
/// declared winner is the candidate in the leader's place, under its new id.
pub proof fn lemma_outcome_relabelled(
    s: Seq<Candidate>,
    t: Seq<Candidate>,
    r: (u64, String, u64, String),
)
    requires
        same_tallies(s, t),
        ids_increasing(s),
        is_outcome(s, r),
    ensures
        r.3@ != declared_text() ==> is_outcome(t, r),
        forall|k: int|
            0 <= k < s.len() && #[trigger] s[k].id == r.0 && r.3@ == declared_text() ==> is_outcome(
                t,
                (t[k].id, r.1, r.2, r.3),
            ),
{
    lemma_tallies_agree(s, t);
    reveal_strlit("No winner");
    reveal_strlit("Election tied");
    reveal_strlit("Winner declared");
    assert(no_winner_text().len() != declared_text().len());
    assert(tied_text().len() != declared_text().len());
    let m = max_votes(s);
    if m != 0 && count_with_votes(s, m) <= 1 {
        let j = choose|j: int|
            0 <= j < s.len() && #[trigger] s[j].vote_count == m && r.0 == s[j].id && r.1@
                == s[j].name@ && r.2 == m && r.3@ == declared_text();
        assert forall|k: int|
            0 <= k < s.len() && #[trigger] s[k].id == r.0 && r.3@ == declared_text() implies is_outcome(
                t,
                (t[k].id, r.1, r.2, r.3),
            ) by {
            if k < j {
                assert(s[k].id < s[j].id);
            } else if k > j {
                assert(s[j].id < s[k].id);
            }
            assert(t[k].vote_count == m);
        }
    }
}

/// A prefix never holds more votes than the whole sequence.
pub proof fn lemma_prefix_total(s: Seq<Candidate>, i: int)
    requires
        0 <= i <= s.len(),
    ensures
        total_votes(s.take(i)) <= total_votes(s),
    decreases s.len() - i,
{
    if i < s.len() {
        lemma_prefix_total(s, i + 1);
        assert(s.take(i + 1).drop_last() =~= s.take(i));
    } else {
        assert(s.take(i) =~= s);
    }
}

/// The sum of the vote counts of `cands`.
pub fn vote_total(cands: &Vec<Candidate>) -> (r: u64)
    requires
        total_votes(cands@) <= u64::MAX,
    ensures
        r == total_votes(cands@),
{
    let mut sum: u64 = 0;
    let mut i: usize = 0;
    while i < cands.len()
        invariant
            i <= cands@.len(),
            sum == total_votes(cands@.take(i as int)),
            total_votes(cands@) <= u64::MAX,
        decreases cands@.len() - i,
    {
        proof {
            assert(cands@.take(i + 1).drop_last() =~= cands@.take(i as int));
            lemma_prefix_total(cands@, i + 1);
        }
        sum = sum + cands[i].vote_count;
        i = i + 1;
    }
    assert(cands@.take(i as int) =~= cands@);
    sum
}

/// The outcome of a finished election over `cands`, in one pass.
pub fn winner_of(cands: &Vec<Candidate>) -> (r: (u64, String, u64, String))
    ensures
        is_outcome(cands@, r),
{
    let ghost s = cands@;
    let mut top_idx: usize = 0;
    let mut top_votes: u64 = 0;
    let mut tie_count: u64 = 0;
    let mut i: usize = 0;
    while i < cands.len()
        invariant
            s == cands@,
            i <= s.len(),
            top_votes == max_votes(s.take(i as int)),
            tie_count <= i,
            top_votes > 0 ==> tie_count == count_with_votes(s.take(i as int), top_votes),
            top_votes > 0 ==> top_idx < i && s[top_idx as int].vote_count == top_votes,
        decreases s.len() - i,
    {
        let ghost t = s.take(i + 1);
        proof {
            assert(t.drop_last() =~= s.take(i as int));
            assert(t.last() == s[i as int]);
            lemma_max_bounds(s.take(i as int));
        }
        let v = cands[i].vote_count;
        proof {
            assert(count_with_votes(t, v) == count_with_votes(s.take(i as int), v) + 1);
            assert(v > top_votes ==> count_with_votes(s.take(i as int), v) == 0);
            assert(v != top_votes ==> count_with_votes(t, top_votes) == count_with_votes(s.take(i as int), top_votes));
        }
        if v > top_votes {
            top_votes = v;
            top_idx = i;
            tie_count = 1;
        } else if v == top_votes {
            tie_count = tie_count + 1;
        }
        i = i + 1;
    }
    proof {
        assert(s.take(i as int) =~= s);
    }
    if top_votes == 0 {
        return (0, String::new(), 0, String::from_str("No winner"));
    }
    if tie_count > 1 {
        return (0, String::new(), top_votes, String::from_str("Election tied"));
    }
    let name = cands[top_idx].name.clone();
    (cands[top_idx].id, name, top_votes, String::from_str("Winner declared"))
}

/// `c` is a copy of some candidate of `s`.
pub open spec fn drawn_from(c: Candidate, s: Seq<Candidate>) -> bool {
    exists|j: int| 0 <= j < s.len() && c.same(s[j])
}

/// `r` is the leaderboard of `s`: one entry per candidate, entry `k` holds
/// rank `k + 1`, a copy of a candidate of `s` and its vote count, and the
/// entries run from most to fewest votes, equal counts in id order.
pub open spec fn is_leaderboard(s: Seq<Candidate>, r: Seq<(u64, Candidate, u64)>) -> bool {
    &&& r.len() == s.len()
    &&& forall|k: int| 0 <= k < r.len() ==> (#[trigger] r[k]).0 == k + 1 && r[k].2 == r[k].1.vote_count
    &&& forall|k: int| 0 <= k < r.len() ==> drawn_from((#[trigger] r[k]).1, s)
    &&& forall|a: int, b: int| 0 <= a < b < r.len() ==> ranks_above(r[a].1, r[b].1)
}

/// Candidates ordered from most to fewest votes; among equal counts the
/// smaller id comes first, as a stable sort of `cands` in id order gives.
fn order_by_votes(cands: &Vec<Candidate>) -> (r: Vec<Candidate>)
    requires
        ids_increasing(cands@),
    ensures
        r@.len() == cands@.len(),
        forall|k: int| 0 <= k < r@.len() ==> drawn_from(#[trigger] r@[k], cands@),
        forall|a: int, b: int| 0 <= a < b < r@.len() ==> ranks_above(r@[a], r@[b]),
{
    let mut r: Vec<Candidate> = Vec::new();
    // where each entry of `r` was taken from
    let ghost mut src: Seq<int> = Seq::empty();
    let mut i: usize = 0;
    while i < cands.len()
        invariant
            i <= cands@.len(),
            ids_increasing(cands@),
            r@.len() == i,
            src.len() == i,
            forall|k: int| 0 <= k < i ==> 0 <= #[trigger] src[k] < i && r@[k].same(cands@[src[k]]),
            forall|a: int, b: int| 0 <= a < b < r@.len() ==> ranks_above(r@[a], r@[b]),
        decreases cands@.len() - i,
    {
        let c = cands[i].duplicate();
        let mut p: usize = 0;
        while p < r.len() && !(c.vote_count > r[p].vote_count || (c.vote_count == r[p].vote_count
            && c.id < r[p].id))
            invariant
                p <= r@.len(),
                r@.len() == i,
                i < cands@.len(),
                src.len() == i,
                ids_increasing(cands@),
                c.same(cands@[i as int]),
                forall|k: int| 0 <= k < i ==> 0 <= #[trigger] src[k] < i && r@[k].same(cands@[src[k]]),
                forall|k: int| 0 <= k < p ==> ranks_above(#[trigger] r@[k], c),
            decreases r@.len() - p,
        {
            proof {
                assert(0 <= src[p as int] < i);
                assert(r@[p as int].id < c.id);
            }
            p = p + 1;
        }
        let ghost old_r = r@;
        let ghost old_src = src;
        proof {
            assert forall|k: int| p <= k < old_r.len() implies ranks_above(c, #[trigger] old_r[k]) by {
                if k > p {
                    assert(ranks_above(old_r[p as int], old_r[k]));
                }
            }
        }
        r.insert(p, c);
        proof {
            src = old_src.insert(p as int, i as int);
            assert forall|k: int| 0 <= k < i + 1 implies 0 <= #[trigger] src[k] < i + 1 && r@[k].same(
                cands@[src[k]],
            ) by {
                if k < p {
                    assert(r@[k] == old_r[k] && src[k] == old_src[k]);
                } else if k > p {
                    assert(r@[k] == old_r[k - 1] && src[k] == old_src[k - 1]);
                }
            }
            assert forall|a: int, b: int| 0 <= a < b < r@.len() implies ranks_above(r@[a], r@[b]) by {
                if b < p {
                    assert(r@[a] == old_r[a] && r@[b] == old_r[b]);
                } else if b == p {
                    assert(r@[a] == old_r[a]);
                } else if a < p {
                    assert(r@[a] == old_r[a] && r@[b] == old_r[b - 1]);
                } else if a == p {
                    assert(r@[b] == old_r[b - 1]);
                } else {
                    assert(r@[a] == old_r[a - 1] && r@[b] == old_r[b - 1]);
                }
            }
        }
        i = i + 1;
    }
    proof {
        assert forall|k: int| 0 <= k < r@.len() implies drawn_from(#[trigger] r@[k], cands@) by {
            assert(0 <= src[k] < i);
            assert(r@[k].same(cands@[src[k]]));
        }
    }
    r
}

/// The leaderboard of `cands`, ranks counted from 1 by position.
pub fn leaderboard_of(cands: &Vec<Candidate>) -> (r: Vec<(u64, Candidate, u64)>)
    requires
        ids_increasing(cands@),
    ensures
        is_leaderboard(cands@, r@),
{
    let ordered = order_by_votes(cands);
    let mut r: Vec<(u64, Candidate, u64)> = Vec::new();
    let mut k: usize = 0;
    while k < ordered.len()
        invariant
            k <= ordered@.len(),
            r@.len() == k,
            ordered@.len() == cands@.len(),
            forall|a: int|
                0 <= a < k ==> (#[trigger] r@[a]).0 == a + 1 && r@[a].2 == r@[a].1.vote_count && r@[a].1.same(ordered@[a]),
        decreases ordered@.len() - k,
    {
        let c = ordered[k].duplicate();
        let votes = c.vote_count;
        r.push(((k + 1) as u64, c, votes));
        k = k + 1;
    }
    proof {
        assert forall|x: int| 0 <= x < r@.len() implies drawn_from((#[trigger] r@[x]).1, cands@) by {
            assert(r@[x].1.same(ordered@[x]));
            assert(drawn_from(ordered@[x], cands@));
            let j = choose|j: int| 0 <= j < cands@.len() && ordered@[x].same(cands@[j]);
            assert(r@[x].1.same(cands@[j]));
        }
        assert forall|a: int, b: int| 0 <= a < b < r@.len() implies ranks_above(r@[a].1, r@[b].1) by {
            assert(r@[a].1.same(ordered@[a]) && r@[b].1.same(ordered@[b]));
            assert(ranks_above(ordered@[a], ordered@[b]));
        }
    }
    r
}

} // verus!
