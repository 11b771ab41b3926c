//! Windowing arithmetic of the spectrogram builder: slicing one channel's
//! samples into fixed-length analysis windows, and the per-window maximum the
//! normalization step divides by.

use vstd::arithmetic::div_mod::{
    lemma_div_is_ordered, lemma_div_multiples_vanish, lemma_div_pos_is_pos,
    lemma_fundamental_div_mod, lemma_mod_division_less_than_divisor,
};
use vstd::arithmetic::mul::{lemma_mul_inequality, lemma_mul_is_commutative};
use vstd::prelude::*;

verus! {

/// Why a spectrogram build request was rejected.
#[derive(Clone, Copy, Debug, PartialEq, Eq, Structural)]
pub enum BuildError {
    /// A resolution with zero columns or zero rows.
    ZeroResolution,
    /// The requested windows would reach past the end of the samples.
    TooFewSamples,
}

/// A window holds two samples per frequency row of the spectrogram.
pub open spec fn window_len(rows: int) -> int {
    2 * rows
}

/// `columns` windows of `2 * rows` samples each fit into `n` samples.
pub open spec fn fits(n: int, columns: int, rows: int) -> bool {
    &&& columns >= 1
    &&& rows >= 1
    &&& columns * window_len(rows) <= n
}

/// For positive `d`, the multiple `a * d` stays within `n` exactly when `a`
/// is at most the quotient `n / d`.
pub proof fn lemma_mul_le_iff_div(a: int, d: int, n: int)
    requires
        d >= 1,
        a >= 0,
        n >= 0,
    ensures
        a * d <= n <==> a <= n / d,
{
    if a * d <= n {
        lemma_div_is_ordered(a * d, n, d);
        lemma_mul_is_commutative(a, d);
        lemma_div_multiples_vanish(a, d);
    }
    if a <= n / d {
        lemma_div_pos_is_pos(n, d);
        lemma_mul_inequality(a, n / d, d);
        lemma_fundamental_div_mod(n, d);
        lemma_mod_division_less_than_divisor(n, d);
        lemma_mul_is_commutative(n / d, d);
    }
}

/// The window volume fits exactly when `rows` is at most the samples per
/// column, halved.
proof fn lemma_fits_iff_quotient(n: int, columns: int, rows: int)
    requires
        columns >= 1,
        rows >= 0,
        n >= 0,
    ensures
        columns * window_len(rows) <= n <==> rows <= n / columns / 2,
{
    lemma_mul_le_iff_div(2 * rows, columns, n);
    lemma_mul_is_commutative(2 * rows, columns);
    lemma_div_pos_is_pos(n, columns);
    lemma_mul_le_iff_div(rows, 2, n / columns);
    lemma_mul_is_commutative(rows, 2);
}

/// Slices one channel's samples into `columns` contiguous, non-overlapping
/// windows of `2 * rows` samples each, window `i` covering the samples from
/// `i * 2 * rows` on.  A request whose windows would reach past the end of
/// the samples is an error, never a silent truncation.
pub fn partition(samples: &Vec<i16>, columns: usize, rows: usize) -> (r: Result<
    Vec<Vec<i16>>,
    BuildError,
>)
    ensures
        r is Ok <==> fits(samples@.len() as int, columns as int, rows as int),
        r matches Ok(ws) ==> {
            &&& ws@.len() == columns
            &&& forall|i: int|
                0 <= i < columns ==> (#[trigger] ws@[i])@ == samples@.subrange(
                    i * window_len(rows as int),
                    (i + 1) * window_len(rows as int),
                )
        },
        r == Err::<Vec<Vec<i16>>, BuildError>(BuildError::ZeroResolution) <==> columns == 0
            || rows == 0,
        columns >= 1 && rows >= 1 && !fits(samples@.len() as int, columns as int, rows as int)
            ==> r == Err::<Vec<Vec<i16>>, BuildError>(BuildError::TooFewSamples),
{
    if columns == 0 || rows == 0 {
        return Err(BuildError::ZeroResolution);
    }
    let n = samples.len();
    proof {
        lemma_fits_iff_quotient(n as int, columns as int, rows as int);
    }
    if rows > n / columns / 2 {
        return Err(BuildError::TooFewSamples);
    }
    proof {
        lemma_mul_le_iff_div(2 * rows as int, columns as int, n as int);
        lemma_mul_is_commutative(2 * rows as int, columns as int);
    }
    let w: usize = 2 * rows;
    let mut windows: Vec<Vec<i16>> = Vec::new();
    for i in 0..columns
        invariant
            n == samples@.len(),
            w == 2 * rows,
            1 <= columns,
            columns * w <= n,
            windows@.len() == i,
            forall|ii: int|
                0 <= ii < i ==> (#[trigger] windows@[ii])@ == samples@.subrange(
                    ii * w,
                    (ii + 1) * w,
                ),
    {
        proof {
            lemma_mul_inequality(i as int + 1, columns as int, w as int);
            assert((i + 1) * w == i * w + w) by (nonlinear_arith);
            assert(i * w >= 0) by (nonlinear_arith);
        }
        let base: usize = i * w;
        let mut cur: Vec<i16> = Vec::new();
        for j in 0..w
            invariant
                n == samples@.len(),
                base == i * w,
                base + w <= n,
                cur@.len() == j,
                forall|jj: int| 0 <= jj < j ==> (#[trigger] cur@[jj]) == samples@[base + jj],
        {
            cur.push(samples[base + j]);
        }
        proof {
            assert(cur@ =~= samples@.subrange(i as int * w, (i as int + 1) * w));
        }
        windows.push(cur);
    }
    proof {
        assert forall|i: int| 0 <= i < columns implies (#[trigger] windows@[i])@
            == samples@.subrange(
            i * window_len(rows as int),
            (i + 1) * window_len(rows as int),
        ) by {
            assert(i * (2 * rows) == i * w && (i + 1) * (2 * rows) == (i + 1) * w);
        }
    }
    Ok(windows)
}

/// The row count derived for a column count: samples per column, halved.
/// Unless it is zero, that many rows always fit, and no larger count does.
pub fn fit_rows(n_samples: usize, columns: usize) -> (r: usize)
    requires
        columns >= 1,
    ensures
        r == n_samples as int / columns as int / 2,
        r >= 1 ==> fits(n_samples as int, columns as int, r as int),
        !fits(n_samples as int, columns as int, r as int + 1),
{
    proof {
        lemma_div_pos_is_pos(n_samples as int, columns as int);
        lemma_div_pos_is_pos(n_samples as int / columns as int, 2);
        lemma_fits_iff_quotient(n_samples as int, columns as int, n_samples as int / columns as int / 2);
        lemma_fits_iff_quotient(
            n_samples as int,
            columns as int,
            n_samples as int / columns as int / 2 + 1,
        );
    }
    n_samples / columns / 2
}

/// The largest element of a non-empty sequence of magnitudes.
pub fn max_value(values: &Vec<u64>) -> (r: u64)
    requires
        values@.len() >= 1,
    ensures
        exists|i: int| 0 <= i < values@.len() && values@[i] == r,
        forall|i: int| 0 <= i < values@.len() ==> values@[i] <= r,
{
    let mut r: u64 = values[0];
    let mut idx: usize = 1;
    while idx < values.len()
        invariant
            1 <= idx <= values@.len(),
            exists|i: int| 0 <= i < idx && values@[i] == r,
            forall|i: int| 0 <= i < idx ==> values@[i] <= r,
        decreases values@.len() - idx,
    {
        if values[idx] > r {
            r = values[idx];
        }
        idx = idx + 1;
    }
    r
}

} // verus!
