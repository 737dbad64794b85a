use vstd::prelude::*;
use crate::fingerprint::Fingerprint;
use crate::score::{score_of, similarity, Score};

verus! {

/// `a >= b` and `b >= c` give `a >= c`, for well-formed scores.
pub proof fn lemma_ge_transitive(a: Score, b: Score, c: Score)
    requires
        a.wf(),
        b.wf(),
        c.wf(),
        a.spec_ge(b),
        b.spec_ge(c),
    ensures
        a.spec_ge(c),
{
    let (am, at, bm, bt, cm, ct) = (
        a.matching as int,
        a.total as int,
        b.matching as int,
        b.total as int,
        c.matching as int,
        c.total as int,
    );
    assert(am * ct >= cm * at) by (nonlinear_arith)
        requires
            0 < at,
            0 < bt,
            0 < ct,
            0 <= am,
            0 <= bm,
            0 <= cm,
            am * bt >= bm * at,
            bm * ct >= cm * bt,
    {
        assert(am * bt * ct >= bm * at * ct);
        assert(bm * ct * at >= cm * bt * at);
        assert(am * ct * bt >= cm * at * bt);
    }
}

/// `p` lists each of `0 .. n` exactly once.
pub open spec fn is_permutation(p: Seq<usize>, n: int) -> bool {
    &&& p.len() == n
    &&& forall|k: int| 0 <= k < n ==> #[trigger] p[k] < n
    &&& forall|k1: int, k2: int| 0 <= k1 < k2 < n ==> #[trigger] p[k1] != #[trigger] p[k2]
}

/// The positions of `scores`, best first; equal scores keep their order.
pub fn rank_order(scores: &Vec<Score>) -> (r: Vec<usize>)
    requires
        forall|i: int| 0 <= i < scores@.len() ==> #[trigger] scores@[i].wf(),
    ensures
        is_permutation(r@, scores@.len() as int),
        forall|k1: int, k2: int|
            0 <= k1 < k2 < r@.len() ==> #[trigger] scores@[r@[k1] as int].spec_ge(
                #[trigger] scores@[r@[k2] as int],
            ),
{
    let m = scores.len();
    let mut order: Vec<usize> = Vec::new();
    let mut i: usize = 0;
    while i < m
        invariant
            m == scores@.len(),
            i <= m,
            forall|j: int| 0 <= j < m ==> #[trigger] scores@[j].wf(),
            is_permutation(order@, i as int),
            forall|k1: int, k2: int|
                0 <= k1 < k2 < order@.len() ==> #[trigger] scores@[order@[k1] as int].spec_ge(
                    #[trigger] scores@[order@[k2] as int],
                ),
        decreases m - i,
    {
        let mut p: usize = 0;
        while p < order.len() && scores[order[p]].ge(&scores[i])
            invariant
                m == scores@.len(),
                i < m,
                p <= order@.len(),
                order@.len() == i,
                forall|k: int| 0 <= k < i ==> #[trigger] order@[k] < i,
                forall|k: int| 0 <= k < p ==> #[trigger] scores@[order@[k] as int].spec_ge(
                    scores@[i as int]),
            decreases order@.len() - p,
        {
            p = p + 1;
        }
        let ghost old_order = order@;
        order.insert(p, i);
        proof {
            let x = scores@[i as int];
            assert forall|k1: int, k2: int| 0 <= k1 < k2 < order@.len() implies
                #[trigger] scores@[order@[k1] as int].spec_ge(#[trigger] scores@[order@[k2] as int]) by {
                if k2 < p {
                    assert(scores@[old_order[k1] as int].spec_ge(scores@[old_order[k2] as int]));
                } else if k1 < p && k2 == p {
                } else if k1 < p && k2 > p {
                    assert(scores@[old_order[k1] as int].spec_ge(scores@[old_order[k2 - 1] as int]));
                } else if k1 == p {
                    let y = scores@[old_order[p as int] as int];
                    assert(x.spec_ge(y));
                    if k2 - 1 > p {
                        assert(y.spec_ge(scores@[old_order[k2 - 1] as int]));
                        lemma_ge_transitive(x, y, scores@[old_order[k2 - 1] as int]);
                    }
                } else {
                    assert(scores@[old_order[k1 - 1] as int].spec_ge(scores@[old_order[k2 - 1] as int]));
                }
            }
            assert forall|k1: int, k2: int| 0 <= k1 < k2 < i + 1 implies #[trigger] order@[k1]
                != #[trigger] order@[k2] by {
                if k1 != p && k2 != p {
                    let o1 = if k1 < p { k1 } else { k1 - 1 };
                    let o2 = if k2 < p { k2 } else { k2 - 1 };
                    assert(old_order[o1] != old_order[o2]);
                } else if k1 == p {
                    assert(old_order[k2 - 1] < i);
                } else {
                    assert(old_order[k1] < i);
                }
            }
            assert forall|k: int| 0 <= k < i + 1 implies #[trigger] order@[k] < i + 1 by {
                if k < p {
                    assert(old_order[k] < i);
                } else if k > p {
                    assert(old_order[k - 1] < i);
                }
            }
        }
        i = i + 1;
    }
    order
}

/// A scored pair of corpus entries, named by their identifiers.
#[derive(Clone, Debug)]
pub struct ScoredPair {
    pub score: Score,
    pub first: String,
    pub second: String,
}

/// The score of one corpus entry against a query fingerprint.
#[derive(Clone, Debug)]
pub struct QueryMatch {
    pub score: Score,
    pub path: String,
}

/// The unordered pairs `(i, j)`, `i < j < m`, of positions in a corpus of `m`
/// entries, in the order in which they are scored.
pub open spec fn index_pairs(m: int) -> Seq<(int, int)>
    decreases m,
{
    if m <= 0 {
        Seq::empty()
    } else {
        index_pairs(m - 1) + Seq::new((m - 1) as nat, |i: int| (i, m - 1))
    }
}

/// The identifier of the entry at `i`.
pub open spec fn entry_id(corpus: Seq<(String, Fingerprint)>, i: int) -> Seq<char> {
    corpus[i].0@
}

/// The fingerprint of the entry at `i`.
pub open spec fn entry_bits(corpus: Seq<(String, Fingerprint)>, i: int) -> Seq<bool> {
    corpus[i].1@
}

/// `e` is the result of scoring the entries at `p.0` and `p.1`.
pub open spec fn is_pair_result(corpus: Seq<(String, Fingerprint)>, e: ScoredPair, p: (int, int)) -> bool {
    &&& e.score == score_of(entry_bits(corpus, p.0), entry_bits(corpus, p.1))
    &&& e.first@ == entry_id(corpus, p.0)
    &&& e.second@ == entry_id(corpus, p.1)
}

/// `e` is the result of scoring the entry at `i` against `query`.
pub open spec fn is_query_result(
    corpus: Seq<(String, Fingerprint)>,
    query: Seq<bool>,
    e: QueryMatch,
    i: int,
) -> bool {
    &&& e.score == score_of(query, entry_bits(corpus, i))
    &&& e.path@ == entry_id(corpus, i)
}

/// Scores run from best to worst.
pub open spec fn pairs_sorted(v: Seq<ScoredPair>) -> bool {
    forall|k1: int, k2: int| 0 <= k1 < k2 < v.len() ==> #[trigger] v[k1].score.spec_ge(#[trigger] v[k2].score)
}

/// Scores run from best to worst.
pub open spec fn matches_sorted(v: Seq<QueryMatch>) -> bool {
    forall|k1: int, k2: int| 0 <= k1 < k2 < v.len() ==> #[trigger] v[k1].score.spec_ge(#[trigger] v[k2].score)
}

proof fn lemma_index_pairs_len(m: int)
    requires
        0 <= m,
    ensures
        index_pairs(m).len() == m * (m - 1) / 2,
{
    lemma_index_pairs_double_len(m);
    vstd::arithmetic::div_mod::lemma_div_multiples_vanish(index_pairs(m).len() as int, 2);
}

proof fn lemma_index_pairs_double_len(m: int)
    requires
        0 <= m,
    ensures
        2 * index_pairs(m).len() == m * (m - 1),
    decreases m,
{
    if m > 0 {
        lemma_index_pairs_double_len(m - 1);
        assert(index_pairs(m).len() == index_pairs(m - 1).len() + (m - 1));
        let p = m - 1;
        assert(2 * index_pairs(p).len() == p * (p - 1));
        assert(p * (p - 1) + 2 * p == (p + 1) * p) by (nonlinear_arith);
        assert(m * (m - 1) == (p + 1) * p);
    } else {
        assert(index_pairs(m).len() == 0);
        assert(m * (m - 1) == 0);
    }
}

proof fn lemma_index_pairs_bounds(m: int)
    requires
        0 <= m,
    ensures
        forall|t: int|
            0 <= t < index_pairs(m).len() ==> 0 <= #[trigger] index_pairs(m)[t].0 < index_pairs(m)[t].1 < m,
    decreases m,
{
    if m > 0 {
        lemma_index_pairs_bounds(m - 1);
        let prev = index_pairs(m - 1);
        assert forall|t: int| 0 <= t < index_pairs(m).len() implies 0 <= #[trigger] index_pairs(
            m,
        )[t].0 < index_pairs(m)[t].1 < m by {
            if t < prev.len() {
                assert(index_pairs(m)[t] == prev[t]);
            }
        }
    }
}

/// Self-comparison scores every unordered pair of positions exactly once.
pub proof fn lemma_index_pairs_each_once(m: int, i: int, j: int)
    requires
        0 <= i < j < m,
    ensures
        exists|t: int| 0 <= t < index_pairs(m).len() && #[trigger] index_pairs(m)[t] == (i, j),
        forall|t1: int, t2: int|
            0 <= t1 < index_pairs(m).len() && 0 <= t2 < index_pairs(m).len() && index_pairs(m)[t1]
                == (i, j) && index_pairs(m)[t2] == (i, j) ==> t1 == t2,
    decreases m,
{
    let prev = index_pairs(m - 1);
    let full = index_pairs(m);
    lemma_index_pairs_bounds(m - 1);
    if j < m - 1 {
        lemma_index_pairs_each_once(m - 1, i, j);
        let t = choose|t: int| 0 <= t < prev.len() && #[trigger] prev[t] == (i, j);
        assert(full[t] == (i, j));
        assert forall|t1: int, t2: int|
            0 <= t1 < full.len() && 0 <= t2 < full.len() && full[t1] == (i, j) && full[t2] == (i, j)
                implies t1 == t2 by {
            if t1 >= prev.len() {
                assert(full[t1].1 == m - 1);
            }
            if t2 >= prev.len() {
                assert(full[t2].1 == m - 1);
            }
            assert(full[t1] == prev[t1]);
            assert(full[t2] == prev[t2]);
        }
    } else {
        let t = prev.len() + i;
        assert(full[t] == (i, j));
        assert forall|t1: int, t2: int|
            0 <= t1 < full.len() && 0 <= t2 < full.len() && full[t1] == (i, j) && full[t2] == (i, j)
                implies t1 == t2 by {
            if t1 < prev.len() {
                assert(full[t1] == prev[t1]);
                assert(prev[t1].0 < prev[t1].1 < m - 1);
            }
            if t2 < prev.len() {
                assert(full[t2] == prev[t2]);
                assert(prev[t2].0 < prev[t2].1 < m - 1);
            }
        }
    }
}

/// Scores the unordered pairs of a corpus in the order of `index_pairs`.
fn score_pairs(corpus: &Vec<(String, Fingerprint)>) -> (r: (Vec<(usize, usize)>, Vec<Score>))
    ensures
        r.0@.len() == index_pairs(corpus@.len() as int).len(),
        r.1@.len() == r.0@.len(),
        forall|t: int|
            0 <= t < r.0@.len() ==> (#[trigger] r.0@[t].0 as int, r.0@[t].1 as int) == index_pairs(
                corpus@.len() as int,
            )[t],
        forall|t: int|
            0 <= t < r.1@.len() ==> #[trigger] r.1@[t] == score_of(
                entry_bits(corpus@, r.0@[t].0 as int),
                entry_bits(corpus@, r.0@[t].1 as int),
            ) && r.1@[t].wf(),
{
    let m = corpus.len();
    let mut idx: Vec<(usize, usize)> = Vec::new();
    let mut scores: Vec<Score> = Vec::new();
    let mut b: usize = 0;
    while b < m
        invariant
            m == corpus@.len(),
            b <= m,
            idx@.len() == index_pairs(b as int).len(),
            scores@.len() == idx@.len(),
            forall|t: int|
                0 <= t < idx@.len() ==> (#[trigger] idx@[t].0 as int, idx@[t].1 as int)
                    == index_pairs(b as int)[t],
            forall|t: int|
                0 <= t < scores@.len() ==> #[trigger] scores@[t] == score_of(
                    entry_bits(corpus@, idx@[t].0 as int),
                    entry_bits(corpus@, idx@[t].1 as int),
                ) && scores@[t].wf(),
        decreases m - b,
    {
        let ghost base = index_pairs(b as int);
        let ghost next = index_pairs(b + 1);
        assert(next =~= base + Seq::new(b as nat, |i: int| (i, b as int)));
        let mut a: usize = 0;
        while a < b
            invariant
                m == corpus@.len(),
                b < m,
                a <= b,
                base == index_pairs(b as int),
                next == base + Seq::new(b as nat, |i: int| (i, b as int)),
                idx@.len() == base.len() + a,
                scores@.len() == idx@.len(),
                forall|t: int|
                    0 <= t < idx@.len() ==> (#[trigger] idx@[t].0 as int, idx@[t].1 as int)
                        == next[t],
                forall|t: int|
                    0 <= t < scores@.len() ==> #[trigger] scores@[t] == score_of(
                        entry_bits(corpus@, idx@[t].0 as int),
                        entry_bits(corpus@, idx@[t].1 as int),
                    ) && scores@[t].wf(),
            decreases b - a,
        {
            let s = similarity(&corpus[a].1, &corpus[b].1);
            idx.push((a, b));
            scores.push(s);
            a = a + 1;
        }
        b = b + 1;
    }
    (idx, scores)
}

/// Ranks every unordered pair of corpus entries by score, best first.
///
/// An empty corpus gives `None`; a corpus of one entry gives that entry paired
/// with itself at score `1`.
pub fn similarity_directory(corpus: &Vec<(String, Fingerprint)>) -> (r: Option<Vec<ScoredPair>>)
    ensures
        r.is_none() <==> corpus@.len() == 0,
        corpus@.len() == 1 ==> (r matches Some(v) && v@.len() == 1 && v@[0].score == (Score {
            matching: 1,
            total: 1,
        }) && v@[0].first@ == entry_id(corpus@, 0) && v@[0].second@ == entry_id(corpus@, 0)),
        corpus@.len() >= 2 ==> (r matches Some(v) && v@.len() == corpus@.len() * (corpus@.len() - 1)
            / 2 && pairs_sorted(v@) && exists|perm: Seq<usize>|
            #[trigger] is_permutation(perm, v@.len() as int) && forall|k: int|
                0 <= k < v@.len() ==> is_pair_result(
                    corpus@,
                    #[trigger] v@[k],
                    index_pairs(corpus@.len() as int)[perm[k] as int],
                )),
        r matches Some(v) ==> forall|k: int| 0 <= k < v@.len() ==> #[trigger] v@[k].score.wf(),
{
    let m = corpus.len();
    if m == 0 {
        return None;
    }
    if m == 1 {
        let id = corpus[0].0.clone();
        let mut v: Vec<ScoredPair> = Vec::new();
        v.push(ScoredPair { score: Score { matching: 1, total: 1 }, first: id.clone(), second: id });
        return Some(v);
    }
    let (idx, scores) = score_pairs(corpus);
    proof {
        lemma_index_pairs_len(m as int);
        lemma_index_pairs_bounds(m as int);
    }
    let order = rank_order(&scores);
    let mut v: Vec<ScoredPair> = Vec::new();
    let mut k: usize = 0;
    while k < order.len()
        invariant
            m == corpus@.len(),
            idx@.len() == index_pairs(m as int).len(),
            scores@.len() == idx@.len(),
            forall|t: int|
                0 <= t < idx@.len() ==> (#[trigger] idx@[t].0 as int, idx@[t].1 as int)
                    == index_pairs(m as int)[t],
            forall|t: int|
                0 <= t < index_pairs(m as int).len() ==> 0 <= #[trigger] index_pairs(m as int)[t].0
                    < index_pairs(m as int)[t].1 < m,
            forall|t: int|
                0 <= t < scores@.len() ==> #[trigger] scores@[t] == score_of(
                    entry_bits(corpus@, idx@[t].0 as int),
                    entry_bits(corpus@, idx@[t].1 as int),
                ) && scores@[t].wf(),
            is_permutation(order@, scores@.len() as int),
            k <= order@.len(),
            v@.len() == k,
            forall|q: int|
                0 <= q < k ==> is_pair_result(
                    corpus@,
                    #[trigger] v@[q],
                    index_pairs(m as int)[order@[q] as int],
                ) && v@[q].score == scores@[order@[q] as int],
        decreases order@.len() - k,
    {
        let t = order[k];
        let (a, b) = idx[t];
        assert(idx@[t as int].0 < m && idx@[t as int].1 < m);
        v.push(
            ScoredPair { score: scores[t], first: corpus[a].0.clone(), second: corpus[b].0.clone() },
        );
        k = k + 1;
    }
    proof {
        assert(is_permutation(order@, v@.len() as int));
        assert forall|k1: int, k2: int| 0 <= k1 < k2 < v@.len() implies #[trigger] v@[k1].score.spec_ge(
            #[trigger] v@[k2].score) by {
            assert(scores@[order@[k1] as int].spec_ge(scores@[order@[k2] as int]));
        }
        assert(v@.len() == m * (m - 1) / 2);
        assert(pairs_sorted(v@));
        assert(forall|k: int|
            0 <= k < v@.len() ==> is_pair_result(
                corpus@,
                #[trigger] v@[k],
                index_pairs(m as int)[order@[k] as int],
            ));
    }
    Some(v)
}

/// Ranks every corpus entry by its score against `query`, best first; an
/// empty corpus gives `None`.
pub fn similarity_file_directory(query: &Fingerprint, corpus: &Vec<(String, Fingerprint)>) -> (r:
    Option<Vec<QueryMatch>>)
    ensures
        r.is_none() <==> corpus@.len() == 0,
        r matches Some(v) ==> v@.len() == corpus@.len() && matches_sorted(v@) && exists|perm: Seq<usize>|
            #[trigger] is_permutation(perm, v@.len() as int) && forall|k: int|
                0 <= k < v@.len() ==> is_query_result(corpus@, query@, #[trigger] v@[k], perm[k] as int),
        r matches Some(v) ==> forall|k: int| 0 <= k < v@.len() ==> #[trigger] v@[k].score.wf(),
{
    let m = corpus.len();
    if m == 0 {
        return None;
    }
    let mut scores: Vec<Score> = Vec::new();
    let mut i: usize = 0;
    while i < m
        invariant
            m == corpus@.len(),
            i <= m,
            scores@.len() == i,
            forall|t: int|
                0 <= t < i ==> #[trigger] scores@[t] == score_of(query@, entry_bits(corpus@, t))
                    && scores@[t].wf(),
        decreases m - i,
    {
        scores.push(similarity(query, &corpus[i].1));
        i = i + 1;
    }
    let order = rank_order(&scores);
    let mut v: Vec<QueryMatch> = Vec::new();
    let mut k: usize = 0;
    while k < order.len()
        invariant
            m == corpus@.len(),
            scores@.len() == m,
            forall|t: int|
                0 <= t < m ==> #[trigger] scores@[t] == score_of(query@, entry_bits(corpus@, t))
                    && scores@[t].wf(),
            is_permutation(order@, m as int),
            k <= order@.len(),
            v@.len() == k,
            forall|q: int|
                0 <= q < k ==> is_query_result(corpus@, query@, #[trigger] v@[q], order@[q] as int)
                    && v@[q].score == scores@[order@[q] as int],
        decreases order@.len() - k,
    {
        let t = order[k];
        v.push(QueryMatch { score: scores[t], path: corpus[t].0.clone() });
        k = k + 1;
    }
    proof {
        assert(is_permutation(order@, v@.len() as int));
        assert forall|k1: int, k2: int| 0 <= k1 < k2 < v@.len() implies #[trigger] v@[k1].score.spec_ge(
            #[trigger] v@[k2].score) by {
            assert(scores@[order@[k1] as int].spec_ge(scores@[order@[k2] as int]));
        }
    }
    Some(v)
}

} // verus!
