use vstd::prelude::*;
use vstd::string::StrSliceExecFns;
use vstd::string::StringExecFns;

verus! {

/// A perceptual fingerprint: a fixed-length string of bits.
#[derive(Clone, Debug, PartialEq, Eq)]
pub struct Fingerprint {
    pub bits: Vec<bool>,
}

impl View for Fingerprint {
    type V = Seq<bool>;

    open spec fn view(&self) -> Seq<bool> {
        self.bits@
    }
}

/// The character that writes one bit.
pub open spec fn bit_char(b: bool) -> char {
    if b {
        '1'
    } else {
        '0'
    }
}

/// `s` is made of the characters `0` and `1` alone.
pub open spec fn is_bit_text(s: Seq<char>) -> bool {
    forall|i: int| 0 <= i < s.len() ==> (s[i] == '0' || s[i] == '1')
}

/// `bits` is the top-left `dct_length × dct_length` block, read row by row, of
/// the row-major `length × length` map `above_mean`.
pub open spec fn is_block_of(bits: Seq<bool>, above_mean: Seq<bool>, length: int, dct_length: int) -> bool {
    &&& bits.len() == dct_length * dct_length
    &&& forall|row: int, col: int|
        0 <= row < dct_length && 0 <= col < dct_length ==> #[trigger] bits[row * dct_length + col]
            == above_mean[row * length + col]
}

/// Reading a fingerprint out of a threshold map is deterministic: the same map
/// and sizes give the same bits.
pub proof fn lemma_block_determined(
    a: Seq<bool>,
    b: Seq<bool>,
    above_mean: Seq<bool>,
    length: int,
    dct_length: int,
)
    requires
        0 < dct_length,
        is_block_of(a, above_mean, length, dct_length),
        is_block_of(b, above_mean, length, dct_length),
    ensures
        a == b,
{
    let k = dct_length;
    assert forall|t: int| 0 <= t < a.len() implies a[t] == b[t] by {
        let row = t / k;
        let col = t % k;
        vstd::arithmetic::div_mod::lemma_fundamental_div_mod(t, k);
        vstd::arithmetic::div_mod::lemma_mod_pos_bound(t, k);
        assert(0 <= row < k) by (nonlinear_arith)
            requires
                t == k * row + col,
                0 <= col < k,
                0 <= t < k * k,
        ;
        assert(t == row * k + col) by (nonlinear_arith)
            requires
                t == k * row + col,
        ;
        assert(a[row * k + col] == above_mean[row * length + col]);
        assert(b[row * k + col] == above_mean[row * length + col]);
    }
    assert(a =~= b);
}

impl Fingerprint {
    pub fn new(bits: Vec<bool>) -> (r: Fingerprint)
        ensures
            r@ == bits@,
    {
        Fingerprint { bits }
    }

    pub fn len(&self) -> (r: usize)
        ensures
            r == self@.len(),
    {
        self.bits.len()
    }

    /// Reads the fingerprint out of the threshold map of a transform.
    ///
    /// `above_mean` is the `length × length` map, row-major, of which transform
    /// coefficients are not below the mean. The fingerprint is the top-left
    /// `dct_length × dct_length` block of it, read row by row.
    pub fn from_thresholds(above_mean: &Vec<bool>, length: usize, dct_length: usize) -> (r:
        Fingerprint)
        requires
            0 < dct_length <= length,
            above_mean@.len() == length * length,
        ensures
            is_block_of(r@, above_mean@, length as int, dct_length as int),
    {
        let n = length;
        let k = dct_length;
        let total = above_mean.len();
        let mut bits: Vec<bool> = Vec::new();
        let mut row: usize = 0;
        while row < k
            invariant
                0 < k <= n,
                above_mean@.len() == n * n,
                total == n * n,
                row <= k,
                bits@.len() == row * k,
                forall|r: int, c: int|
                    0 <= r < row && 0 <= c < k ==> #[trigger] bits@[r * k + c] == above_mean@[r * n
                        + c],
            decreases k - row,
        {
            let mut col: usize = 0;
            while col < k
                invariant
                    0 < k <= n,
                    above_mean@.len() == n * n,
                    total == n * n,
                    row < k,
                    col <= k,
                    bits@.len() == row * k + col,
                    forall|r: int, c: int|
                        (0 <= r < row && 0 <= c < k) || (r == row && 0 <= c < col)
                            ==> #[trigger] bits@[r * k + c] == above_mean@[r * n + c],
                decreases k - col,
            {
                proof {
                    lemma_block_index(row as int, col as int, k as int, n as int);
                }
                bits.push(above_mean[row * n + col]);
                proof {
                    assert forall|r: int, c: int|
                        (0 <= r < row && 0 <= c < k) || (r == row && 0 <= c <= col)
                            implies #[trigger] bits@[r * k + c] == above_mean@[r * n + c] by {
                        if r < row {
                            assert(r * k + c < row * k) by (nonlinear_arith)
                                requires
                                    0 <= r < row,
                                    0 <= c < k,
                            ;
                        }
                    }
                }
                col = col + 1;
            }
            proof {
                assert((row + 1) * k == row * k + k) by (nonlinear_arith);
            }
            row = row + 1;
        }
        Fingerprint { bits }
    }

    /// Reads a fingerprint written as a string over `0` and `1`; `None` where
    /// any other character occurs.
    pub fn from_bit_str(s: &str) -> (r: Option<Fingerprint>)
        ensures
            r.is_some() == is_bit_text(s@),
            r matches Some(fp) ==> fp@.len() == s@.len() && forall|i: int|
                0 <= i < s@.len() ==> fp@[i] == (s@[i] == '1'),
    {
        let n = s.unicode_len();
        let mut bits: Vec<bool> = Vec::new();
        let mut i: usize = 0;
        while i < n
            invariant
                n == s@.len(),
                i <= n,
                bits@.len() == i,
                is_bit_text(s@.subrange(0, i as int)),
                forall|j: int| 0 <= j < i ==> bits@[j] == (s@[j] == '1'),
            decreases n - i,
        {
            let c = s.get_char(i);
            if c == '1' {
                bits.push(true);
            } else if c == '0' {
                bits.push(false);
            } else {
                assert(!is_bit_text(s@));
                return None;
            }
            i = i + 1;
            assert(is_bit_text(s@.subrange(0, i as int))) by {
                assert forall|j: int| 0 <= j < i implies (s@.subrange(0, i as int)[j] == '0'
                    || s@.subrange(0, i as int)[j] == '1') by {
                    if j < i - 1 {
                        assert(s@.subrange(0, i - 1)[j] == s@[j]);
                    }
                }
            }
        }
        assert(s@.subrange(0, n as int) =~= s@);
        Some(Fingerprint { bits })
    }

    /// Writes the fingerprint as a string over `0` and `1`.
    pub fn to_bit_string(&self) -> (r: String)
        ensures
            r@ == self@.map_values(|b: bool| bit_char(b)),
    {
        let mut r = String::new();
        let mut i: usize = 0;
        while i < self.bits.len()
            invariant
                i <= self@.len(),
                r@ == self@.subrange(0, i as int).map_values(|b: bool| bit_char(b)),
            decreases self@.len() - i,
        {
            let ghost before = r@;
            if self.bits[i] {
                r.append("1");
            } else {
                r.append("0");
            }
            proof {
                reveal_strlit("1");
                reveal_strlit("0");
            }
            i = i + 1;
            assert(r@ =~= self@.subrange(0, i as int).map_values(|b: bool| bit_char(b)));
        }
        assert(self@.subrange(0, i as int) =~= self@);
        r
    }
}

/// Where `(row, col)` falls in a row-major block whose rows are `width` long.
proof fn lemma_block_index(row: int, col: int, k: int, width: int)
    requires
        0 <= row < width,
        0 <= col < k <= width,
    ensures
        0 <= row * k + col < width * k,
        row * k + col < (row + 1) * k,
        0 <= row * width + col < width * width,
{
    assert(0 <= row * k) by (nonlinear_arith)
        requires
            0 <= row,
            0 < k,
    ;
    assert(row * k + col < (row + 1) * k) by (nonlinear_arith)
        requires
            col < k,
    ;
    assert((row + 1) * k <= width * k) by (nonlinear_arith)
        requires
            row + 1 <= width,
            0 < k,
    ;
    assert(row * width + col < (row + 1) * width) by (nonlinear_arith)
        requires
            col < width,
    ;
    assert((row + 1) * width <= width * width) by (nonlinear_arith)
        requires
            row + 1 <= width,
            0 < width,
    ;
    assert(0 <= row * width) by (nonlinear_arith)
        requires
            0 <= row,
            0 < width,
    ;
}

} // verus!
