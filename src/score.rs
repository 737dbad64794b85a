use vstd::prelude::*;
use crate::fingerprint::Fingerprint;

verus! {

/// A similarity score, the exact fraction `matching / total`.
///
/// A well-formed score has `0 < total` and `matching <= total`, so its value
/// lies in `[0, 1]`.
#[derive(Clone, Copy, Debug, PartialEq, Eq, Structural)]
pub struct Score {
    pub matching: usize,
    pub total: usize,
}

impl Score {
    pub open spec fn wf(self) -> bool {
        0 < self.total && self.matching <= self.total
    }

    /// The score is `1`.
    pub open spec fn is_one(self) -> bool {
        self.matching == self.total
    }

    /// The score is `0`.
    pub open spec fn is_zero(self) -> bool {
        self.matching == 0
    }

    /// `self >= other` as fractions.
    pub open spec fn spec_ge(self, other: Score) -> bool {
        self.matching * other.total >= other.matching * self.total
    }

    /// `self >= other` as fractions.
    pub fn ge(&self, other: &Score) -> (r: bool)
        ensures
            r == self.spec_ge(*other),
    {
        proof {
            lemma_product_fits(self.matching as int, other.total as int);
            lemma_product_fits(other.matching as int, self.total as int);
        }
        let lhs: u128 = (self.matching as u128) * (other.total as u128);
        let rhs: u128 = (other.matching as u128) * (self.total as u128);
        lhs >= rhs
    }
}

/// The number of positions below `n` at which `a` and `b` differ.
pub open spec fn mismatches(a: Seq<bool>, b: Seq<bool>, n: int) -> int
    decreases n,
{
    if n <= 0 {
        0
    } else {
        mismatches(a, b, n - 1) + if a[n - 1] != b[n - 1] {
            1int
        } else {
            0int
        }
    }
}

/// The similarity of two fingerprints: the share of positions on which they
/// agree, and `0` where their lengths differ or both are empty.
pub open spec fn score_of(a: Seq<bool>, b: Seq<bool>) -> Score {
    if a.len() != b.len() || a.len() == 0 {
        Score { matching: 0, total: 1 }
    } else {
        Score { matching: (a.len() - mismatches(a, b, a.len() as int)) as usize, total: a.len() as usize }
    }
}

/// Scores two fingerprints by the share of bit positions on which they agree.
pub fn similarity(a: &Fingerprint, b: &Fingerprint) -> (r: Score)
    ensures
        r == score_of(a@, b@),
        r.wf(),
{
    let n = a.bits.len();
    if n != b.bits.len() || n == 0 {
        return Score { matching: 0, total: 1 };
    }
    let mut dist: usize = 0;
    let mut i: usize = 0;
    while i < n
        invariant
            n == a@.len(),
            n == b@.len(),
            i <= n,
            dist == mismatches(a@, b@, i as int),
            dist <= i,
        decreases n - i,
    {
        if a.bits[i] != b.bits[i] {
            dist = dist + 1;
        }
        i = i + 1;
    }
    Score { matching: n - dist, total: n }
}

proof fn lemma_mismatches_bounded(a: Seq<bool>, b: Seq<bool>, n: int)
    requires
        0 <= n,
    ensures
        0 <= mismatches(a, b, n) <= n,
    decreases n,
{
    if n > 0 {
        lemma_mismatches_bounded(a, b, n - 1);
    }
}

/// Every score lies in `[0, 1]`.
pub proof fn lemma_score_in_unit_range(a: Seq<bool>, b: Seq<bool>)
    requires
        a.len() <= usize::MAX,
        b.len() <= usize::MAX,
    ensures
        score_of(a, b).wf(),
{
    lemma_mismatches_bounded(a, b, a.len() as int);
}

/// A non-empty fingerprint scores `1` against itself.
pub proof fn lemma_score_identity(a: Seq<bool>)
    requires
        0 < a.len() <= usize::MAX,
    ensures
        score_of(a, a).is_one(),
        score_of(a, a).wf(),
{
    lemma_self_mismatches(a, a.len() as int);
}

proof fn lemma_self_mismatches(a: Seq<bool>, n: int)
    requires
        0 <= n,
    ensures
        mismatches(a, a, n) == 0,
    decreases n,
{
    if n > 0 {
        lemma_self_mismatches(a, n - 1);
    }
}

proof fn lemma_mismatches_symmetric(a: Seq<bool>, b: Seq<bool>, n: int)
    requires
        0 <= n,
    ensures
        mismatches(a, b, n) == mismatches(b, a, n),
    decreases n,
{
    if n > 0 {
        lemma_mismatches_symmetric(a, b, n - 1);
    }
}

/// Scoring does not depend on the order of the two fingerprints.
pub proof fn lemma_score_symmetric(a: Seq<bool>, b: Seq<bool>)
    ensures
        score_of(a, b) == score_of(b, a),
{
    lemma_mismatches_symmetric(a, b, a.len() as int);
}

/// Fingerprints of different lengths score `0`.
pub proof fn lemma_score_length_mismatch(a: Seq<bool>, b: Seq<bool>)
    requires
        a.len() != b.len(),
    ensures
        score_of(a, b).is_zero(),
        score_of(a, b).wf(),
{
}

proof fn lemma_product_fits(a: int, b: int)
    requires
        0 <= a <= usize::MAX,
        0 <= b <= usize::MAX,
    ensures
        0 <= a * b <= u128::MAX,
{
    assert(a * b <= usize::MAX * usize::MAX) by (nonlinear_arith)
        requires
            0 <= a <= usize::MAX,
            0 <= b <= usize::MAX,
    ;
    assert(0 <= a * b) by (nonlinear_arith)
        requires
            0 <= a,
            0 <= b,
    ;
}

} // verus!
