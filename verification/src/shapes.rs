//! Shapes of vectors and matrices, independent of what their entries are.
//!
//! A matrix is a vector of rows. Contracts speak of it through
//! [`rows_of`], which strips the executable containers and leaves a sequence
//! of sequences.

use vstd::prelude::*;

verus! {

/// The rows of a matrix as mathematical sequences.
pub open spec fn rows_of<T>(m: Seq<Vec<T>>) -> Seq<Seq<T>> {
    Seq::new(m.len(), |i: int| m[i]@)
}

/// `m` has exactly `rows` rows and every one of them has `cols` entries.
pub open spec fn is_matrix<T>(m: Seq<Seq<T>>, rows: nat, cols: nat) -> bool {
    &&& m.len() == rows
    &&& forall|i: int| 0 <= i < m.len() ==> (#[trigger] m[i]).len() == cols
}

/// A vector of `len` copies of `value`.
pub open spec fn filled<T>(len: nat, value: T) -> Seq<T> {
    Seq::new(len, |i: int| value)
}

/// A matrix with the row lengths of `m` and `value` in every entry.
pub open spec fn filled_like<T>(m: Seq<Seq<T>>, value: T) -> Seq<Seq<T>> {
    Seq::new(m.len(), |i: int| filled(m[i].len(), value))
}

/// A matrix shaped like `keys` that holds `high` wherever the key is above
/// `at` and `low` everywhere else.
pub open spec fn cut<T>(keys: Seq<Seq<i64>>, at: i64, low: T, high: T) -> Seq<Seq<T>> {
    Seq::new(
        keys.len(),
        |r: int|
            Seq::new(
                keys[r].len(),
                |i: int|
                    if keys[r][i] > at {
                        high
                    } else {
                        low
                    },
            ),
    )
}

/// Two matrices have the same number of rows and, row by row, the same
/// number of entries.
pub open spec fn same_shape<A, B>(a: Seq<Seq<A>>, b: Seq<Seq<B>>) -> bool {
    &&& a.len() == b.len()
    &&& forall|r: int| 0 <= r < a.len() ==> (#[trigger] a[r]).len() == b[r].len()
}

/// Decides whether `m` is a `rows` by `cols` matrix.
pub fn has_shape<T>(m: &Vec<Vec<T>>, rows: usize, cols: usize) -> (ok: bool)
    ensures
        ok == is_matrix(rows_of(m@), rows as nat, cols as nat),
{
    if m.len() != rows {
        return false;
    }
    let mut i: usize = 0;
    while i < m.len()
        invariant
            i <= m.len(),
            m.len() == rows,
            forall|k: int| 0 <= k < i ==> (#[trigger] rows_of(m@)[k]).len() == cols,
        decreases m.len() - i,
    {
        if m[i].len() != cols {
            assert(rows_of(m@)[i as int].len() != cols);
            return false;
        }
        i += 1;
    }
    true
}

/// Builds a vector of `len` copies of `value`.
pub fn fill<T: Copy>(len: usize, value: T) -> (v: Vec<T>)
    ensures
        v@ == filled(len as nat, value),
{
    let mut v: Vec<T> = Vec::new();
    let mut i: usize = 0;
    while i < len
        invariant
            i <= len,
            v@ == filled(i as nat, value),
        decreases len - i,
    {
        v.push(value);
        i += 1;
        assert(v@ =~= filled(i as nat, value));
    }
    v
}

/// Builds a matrix with the row lengths of `m` and `value` in every entry.
pub fn fill_like<T: Copy>(m: &Vec<Vec<T>>, value: T) -> (r: Vec<Vec<T>>)
    ensures
        rows_of(r@) == filled_like(rows_of(m@), value),
{
    let mut r: Vec<Vec<T>> = Vec::new();
    let mut i: usize = 0;
    while i < m.len()
        invariant
            i <= m.len(),
            r.len() == i,
            forall|k: int| 0 <= k < i ==> (#[trigger] r@[k])@ == filled(m@[k].len() as nat, value),
        decreases m.len() - i,
    {
        let row = fill(m[i].len(), value);
        r.push(row);
        i += 1;
    }
    assert(rows_of(r@) =~= filled_like(rows_of(m@), value));
    r
}

/// Decides whether two matrices have the same shape.
pub fn shapes_match<A, B>(a: &Vec<Vec<A>>, b: &Vec<Vec<B>>) -> (ok: bool)
    ensures
        ok == same_shape(rows_of(a@), rows_of(b@)),
{
    if a.len() != b.len() {
        return false;
    }
    let mut r: usize = 0;
    while r < a.len()
        invariant
            r <= a.len(),
            a.len() == b.len(),
            forall|k: int| 0 <= k < r ==> (#[trigger] rows_of(a@)[k]).len() == rows_of(b@)[k].len(),
        decreases a.len() - r,
    {
        if a[r].len() != b[r].len() {
            assert(rows_of(a@)[r as int].len() != rows_of(b@)[r as int].len());
            return false;
        }
        r += 1;
    }
    true
}

/// Builds the matrix that holds `high` wherever the key is above `at` and
/// `low` everywhere else.
pub fn cut_at<T: Copy>(keys: &Vec<Vec<i64>>, at: i64, low: T, high: T) -> (m: Vec<Vec<T>>)
    ensures
        rows_of(m@) == cut(rows_of(keys@), at, low, high),
{
    let ghost wanted = cut(rows_of(keys@), at, low, high);
    let mut m: Vec<Vec<T>> = Vec::new();
    let mut r: usize = 0;
    while r < keys.len()
        invariant
            r <= keys.len(),
            m.len() == r,
            wanted == cut(rows_of(keys@), at, low, high),
            forall|k: int| 0 <= k < r ==> (#[trigger] m@[k])@ == wanted[k],
        decreases keys.len() - r,
    {
        let row = &keys[r];
        let mut out: Vec<T> = Vec::new();
        let mut i: usize = 0;
        while i < row.len()
            invariant
                i <= row.len(),
                r < keys.len(),
                row == keys@[r as int],
                wanted == cut(rows_of(keys@), at, low, high),
                out@ == wanted[r as int].take(i as int),
            decreases row.len() - i,
        {
            if row[i] > at {
                out.push(high);
            } else {
                out.push(low);
            }
            i += 1;
            assert(out@ =~= wanted[r as int].take(i as int));
        }
        assert(wanted[r as int].take(i as int) =~= wanted[r as int]);
        m.push(out);
        r += 1;
    }
    assert(rows_of(m@) =~= wanted);
    m
}

} // verus!
