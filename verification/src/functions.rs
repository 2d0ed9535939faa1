//! Free-standing helpers: one-hot vectors, the position of the largest
//! entry, and the totals of a confusion matrix.

use vstd::prelude::*;
use crate::shapes::{has_shape, is_matrix, rows_of};

verus! {

/// The one-hot vector of `classes` entries that selects `idx`: `one` at
/// `idx`, `zero` everywhere else.
pub open spec fn onehot<T>(idx: int, classes: nat, zero: T, one: T) -> Seq<T> {
    Seq::new(
        classes,
        |i: int|
            if i == idx {
                one
            } else {
                zero
            },
    )
}

/// Builds the one-hot vector that selects class `idx` out of `classes`.
pub fn into_onehot<T: Copy>(idx: usize, classes: usize, zero: T, one: T) -> (v: Vec<T>)
    requires
        idx < classes,
    ensures
        v@ == onehot(idx as int, classes as nat, zero, one),
{
    let mut v: Vec<T> = Vec::new();
    let mut i: usize = 0;
    while i < classes
        invariant
            i <= classes,
            v@ == onehot(idx as int, i as nat, zero, one),
        decreases classes - i,
    {
        if i == idx {
            v.push(one);
        } else {
            v.push(zero);
        }
        i += 1;
        assert(v@ =~= onehot(idx as int, i as nat, zero, one));
    }
    v
}

/// The value of `bits` read as a sign bit followed by a 63-bit magnitude:
/// the magnitude itself, negated where the sign bit is set.
pub open spec fn signed_magnitude(bits: u64) -> int {
    if bits < 0x8000_0000_0000_0000 {
        bits as int
    } else {
        -(bits - 0x8000_0000_0000_0000)
    }
}

/// Turns a bit pattern made of a sign bit and a magnitude into a key that
/// can be compared as an integer.
///
/// This is the layout of a double-precision number, and finite numbers and
/// infinities are ordered the way their keys are. Both zeros get the key 0.
pub fn sign_magnitude_key(bits: u64) -> (key: i64)
    ensures
        key == signed_magnitude(bits),
{
    if bits < 0x8000_0000_0000_0000 {
        bits as i64
    } else {
        -((bits - 0x8000_0000_0000_0000) as i64)
    }
}

/// `i` is the position of the largest key; where the largest key occurs
/// more than once, the last of its positions.
pub open spec fn is_argmax(keys: Seq<i64>, i: int) -> bool {
    &&& 0 <= i < keys.len()
    &&& forall|j: int| 0 <= j < keys.len() ==> keys[j] <= keys[i]
    &&& forall|j: int| i < j < keys.len() ==> keys[j] < keys[i]
}

/// A sequence has at most one position that [`is_argmax`].
pub proof fn lemma_argmax_unique(keys: Seq<i64>, i: int, j: int)
    requires
        is_argmax(keys, i),
        is_argmax(keys, j),
    ensures
        i == j,
{
    if i < j {
        assert(keys[j] < keys[i]);
    } else if j < i {
        assert(keys[i] < keys[j]);
    }
}

/// The position that [`is_argmax`] in `keys`, where there is one.
pub open spec fn argmax_of(keys: Seq<i64>) -> int {
    choose|i: int| is_argmax(keys, i)
}

/// Finds the position of the largest key, the last one among equals.
///
/// The keys stand for the values being compared: any integers that are
/// ordered the way the values are.
pub fn argmax(keys: &[i64]) -> (i: usize)
    requires
        keys@.len() > 0,
    ensures
        is_argmax(keys@, i as int),
        i == argmax_of(keys@),
{
    let mut best: usize = 0;
    let mut k: usize = 1;
    while k < keys.len()
        invariant
            1 <= k <= keys@.len(),
            is_argmax(keys@.take(k as int), best as int),
        decreases keys.len() - k,
    {
        if keys[k] >= keys[best] {
            best = k;
        }
        k += 1;
        assert forall|j: int| 0 <= j < k implies keys@.take(k as int)[j] <= keys@.take(
            k as int,
        )[best as int] by {
            if j < k - 1 {
                assert(keys@.take(k - 1)[j] <= keys@.take(k - 1)[best as int] || best == k - 1);
            }
        }
        assert forall|j: int| best < j < k implies keys@.take(k as int)[j] < keys@.take(
            k as int,
        )[best as int] by {
            if j < k - 1 {
                assert(keys@.take(k - 1)[j] < keys@.take(k - 1)[best as int]);
            }
        }
    }
    assert(keys@.take(k as int) =~= keys@);
    proof {
        lemma_argmax_unique(keys@, best as int, argmax_of(keys@));
    }
    best
}

/// The sum of the entries of `s`.
pub open spec fn sum(s: Seq<u32>) -> nat
    decreases s.len(),
{
    if s.len() == 0 {
        0
    } else {
        (sum(s.drop_last()) + s.last()) as nat
    }
}

/// The sum of all entries of the matrix `m`.
pub open spec fn grand_total(m: Seq<Seq<u32>>) -> nat
    decreases m.len(),
{
    if m.len() == 0 {
        0
    } else {
        (grand_total(m.drop_last()) + sum(m.last())) as nat
    }
}

/// Column `col` of `m`, top to bottom.
pub open spec fn column(m: Seq<Seq<u32>>, col: int) -> Seq<u32> {
    Seq::new(m.len(), |r: int| m[r][col])
}

/// The entries of `m` at equal row and column positions.
pub open spec fn diagonal(m: Seq<Seq<u32>>) -> Seq<u32> {
    Seq::new(m.len(), |r: int| m[r][r])
}

/// `m` can be read as a confusion matrix: it has at least one class and as
/// many rows as columns.
pub open spec fn is_confusion_matrix(m: Seq<Seq<u32>>) -> bool {
    &&& m.len() > 0
    &&& is_matrix(m, m.len(), m.len())
}

/// Taking one more entry adds that entry to the sum.
proof fn lemma_sum_take(s: Seq<u32>, i: int)
    requires
        0 <= i < s.len(),
    ensures
        sum(s.take(i + 1)) == sum(s.take(i)) + s[i],
{
    assert(s.take(i + 1).drop_last() =~= s.take(i));
}

/// The first entries never add up to more than all of them.
proof fn lemma_sum_prefix(s: Seq<u32>, i: int)
    requires
        0 <= i <= s.len(),
    ensures
        sum(s.take(i)) <= sum(s),
    decreases s.len() - i,
{
    if i == s.len() {
        assert(s.take(i) =~= s);
    } else {
        lemma_sum_take(s, i);
        lemma_sum_prefix(s, i + 1);
    }
}

/// No entry is larger than the sum.
proof fn lemma_entry_below_sum(s: Seq<u32>, i: int)
    requires
        0 <= i < s.len(),
    ensures
        s[i] <= sum(s),
{
    lemma_sum_take(s, i);
    lemma_sum_prefix(s, i + 1);
}

/// Taking one more row adds the sum of that row to the total.
proof fn lemma_total_take(m: Seq<Seq<u32>>, i: int)
    requires
        0 <= i < m.len(),
    ensures
        grand_total(m.take(i + 1)) == grand_total(m.take(i)) + sum(m[i]),
{
    assert(m.take(i + 1).drop_last() =~= m.take(i));
}

/// The first rows never add up to more than the whole matrix.
proof fn lemma_total_prefix(m: Seq<Seq<u32>>, i: int)
    requires
        0 <= i <= m.len(),
    ensures
        grand_total(m.take(i)) <= grand_total(m),
    decreases m.len() - i,
{
    if i == m.len() {
        assert(m.take(i) =~= m);
    } else {
        lemma_total_take(m, i);
        lemma_total_prefix(m, i + 1);
    }
}

/// Picking one entry out of each of the first `rows` rows never adds up to
/// more than those rows hold together.
proof fn lemma_picks_below_total(m: Seq<Seq<u32>>, picks: Seq<u32>, at: Seq<int>, rows: int)
    requires
        0 <= rows <= m.len(),
        picks.len() == m.len(),
        at.len() == m.len(),
        forall|r: int| 0 <= r < m.len() ==> 0 <= #[trigger] at[r] < m[r].len(),
        forall|r: int| 0 <= r < m.len() ==> #[trigger] picks[r] == m[r][at[r]],
    ensures
        sum(picks.take(rows)) <= grand_total(m.take(rows)),
    decreases rows,
{
    if rows > 0 {
        lemma_picks_below_total(m, picks, at, rows - 1);
        lemma_sum_take(picks, rows - 1);
        lemma_total_take(m, rows - 1);
        lemma_entry_below_sum(m[rows - 1], at[rows - 1]);
    }
}

/// In a matrix without short rows, no column adds up to more than the whole
/// matrix.
pub proof fn lemma_column_below_total(m: Seq<Seq<u32>>, col: int)
    requires
        forall|r: int| 0 <= r < m.len() ==> 0 <= col < (#[trigger] m[r]).len(),
    ensures
        sum(column(m, col)) <= grand_total(m),
{
    let at = Seq::new(m.len(), |r: int| col);
    lemma_picks_below_total(m, column(m, col), at, m.len() as int);
    assert(column(m, col).take(m.len() as int) =~= column(m, col));
    assert(m.take(m.len() as int) =~= m);
}

/// In a square matrix the diagonal adds up to no more than the whole matrix.
pub proof fn lemma_diagonal_below_total(m: Seq<Seq<u32>>)
    requires
        is_matrix(m, m.len(), m.len()),
    ensures
        sum(diagonal(m)) <= grand_total(m),
{
    let at = Seq::new(m.len(), |r: int| r);
    lemma_picks_below_total(m, diagonal(m), at, m.len() as int);
    assert(diagonal(m).take(m.len() as int) =~= diagonal(m));
    assert(m.take(m.len() as int) =~= m);
}

/// Adds up `values`, or reports that the sum does not fit.
fn checked_sum(values: &Vec<u32>) -> (total: Option<u32>)
    ensures
        total is Some <==> sum(values@) <= u32::MAX,
        total matches Some(t) ==> t == sum(values@),
{
    let mut acc: u32 = 0;
    let mut i: usize = 0;
    while i < values.len()
        invariant
            i <= values.len(),
            acc == sum(values@.take(i as int)),
        decreases values.len() - i,
    {
        proof {
            lemma_sum_take(values@, i as int);
            lemma_sum_prefix(values@, i + 1);
        }
        match acc.checked_add(values[i]) {
            Some(next) => {
                acc = next;
            },
            None => {
                return None;
            },
        }
        i += 1;
    }
    assert(values@.take(i as int) =~= values@);
    Some(acc)
}

/// The totals read off a confusion matrix.
pub struct ConfusionSummary {
    /// For every class, the sum of its column.
    pub column_totals: Vec<u32>,
    /// The sum of the diagonal: the instances that were classified right.
    pub correct: u32,
    /// The sum of all entries: the instances that were classified at all.
    pub instances: u32,
}

/// Decides whether `matrix` can be read as a confusion matrix.
pub fn accepts_confusion_matrix(matrix: &Vec<Vec<u32>>) -> (ok: bool)
    ensures
        ok == is_confusion_matrix(rows_of(matrix@)),
{
    matrix.len() > 0 && has_shape(matrix, matrix.len(), matrix.len())
}

/// Adds up a confusion matrix: every column, the diagonal, and everything.
///
/// There is a summary exactly when the number of instances fits in a `u32`;
/// then every other total fits as well.
pub fn summarize_confusion(matrix: &Vec<Vec<u32>>) -> (summary: Option<ConfusionSummary>)
    requires
        is_confusion_matrix(rows_of(matrix@)),
    ensures
        summary is Some <==> grand_total(rows_of(matrix@)) <= u32::MAX,
        summary matches Some(s) ==> {
            &&& s.instances == grand_total(rows_of(matrix@))
            &&& s.correct == sum(diagonal(rows_of(matrix@)))
            &&& s.column_totals@.len() == matrix@.len()
            &&& forall|c: int|
                0 <= c < matrix@.len() ==> #[trigger] s.column_totals@[c] == sum(
                    column(rows_of(matrix@), c),
                )
        },
{
    let ghost m = rows_of(matrix@);
    let n = matrix.len();
    let mut instances: u32 = 0;
    let mut r: usize = 0;
    while r < n
        invariant
            r <= n,
            n == matrix@.len(),
            m == rows_of(matrix@),
            instances == grand_total(m.take(r as int)),
        decreases n - r,
    {
        proof {
            lemma_total_take(m, r as int);
            lemma_total_prefix(m, r + 1);
        }
        let row_total = match checked_sum(&matrix[r]) {
            Some(t) => t,
            None => {
                return None;
            },
        };
        match instances.checked_add(row_total) {
            Some(next) => {
                instances = next;
            },
            None => {
                return None;
            },
        }
        r += 1;
    }
    assert(m.take(r as int) =~= m);

    let mut correct: u32 = 0;
    let mut d: usize = 0;
    while d < n
        invariant
            d <= n,
            n == matrix@.len(),
            m == rows_of(matrix@),
            is_confusion_matrix(m),
            grand_total(m) <= u32::MAX,
            correct == sum(diagonal(m).take(d as int)),
        decreases n - d,
    {
        proof {
            lemma_sum_take(diagonal(m), d as int);
            lemma_sum_prefix(diagonal(m), d + 1);
            lemma_diagonal_below_total(m);
            assert(m[d as int].len() == n);
        }
        correct = correct + matrix[d][d];
        d += 1;
    }
    assert(diagonal(m).take(d as int) =~= diagonal(m));

    let mut column_totals: Vec<u32> = Vec::new();
    let mut c: usize = 0;
    while c < n
        invariant
            c <= n,
            n == matrix@.len(),
            m == rows_of(matrix@),
            is_confusion_matrix(m),
            grand_total(m) <= u32::MAX,
            column_totals@.len() == c,
            forall|k: int| 0 <= k < c ==> #[trigger] column_totals@[k] == sum(column(m, k)),
        decreases n - c,
    {
        let mut total: u32 = 0;
        let mut row: usize = 0;
        while row < n
            invariant
                row <= n,
                c < n,
                n == matrix@.len(),
                m == rows_of(matrix@),
                is_confusion_matrix(m),
                grand_total(m) <= u32::MAX,
                total == sum(column(m, c as int).take(row as int)),
            decreases n - row,
        {
            proof {
                lemma_sum_take(column(m, c as int), row as int);
                lemma_sum_prefix(column(m, c as int), row + 1);
                assert forall|k: int| 0 <= k < m.len() implies 0 <= c < (#[trigger] m[k]).len() by {}
                lemma_column_below_total(m, c as int);
                assert(m[row as int].len() == n);
            }
            total = total + matrix[row][c];
            row += 1;
        }
        assert(column(m, c as int).take(row as int) =~= column(m, c as int));
        column_totals.push(total);
        c += 1;
    }
    Some(ConfusionSummary { column_totals, correct, instances })
}

} // verus!
