//! The measured workload.
//!
//! Every bracket measurement times the same fixed computation: a nested
//! exclusive-or fold over a small grid of products, routed through an
//! optimization barrier so the compiler can neither eliminate nor hoist it.
//! The cost is deterministic — identical input, identical work — and small
//! but never zero, so a clock with nanosecond resolution never legitimately
//! reads identical brackets around it.

use vstd::prelude::*;

verus! {

/// Relies on `core::hint::black_box`: an identity function that the
/// documentation promises returns its argument unchanged, while acting as an
/// optimization barrier.
pub assume_specification<T>[ core::hint::black_box::<T> ](value: T) -> (r: T)
    ensures
        r == value,
;

/// The number of outer iterations of the workload grid.
pub const GRID_ROWS: i64 = 30;

/// The number of inner iterations of the workload grid.
pub const GRID_COLS: i64 = 29;

/// One row of the fold: `acc` xor-combined with `i * j` for every `j` below
/// `cols`.
pub open spec fn row_fold(acc: i64, i: i64, cols: int) -> i64
    decreases cols,
{
    if cols <= 0 {
        acc
    } else {
        row_fold(acc, i, cols - 1) ^ ((i * (cols - 1)) as i64)
    }
}

/// The whole fold: every row below `rows`, each over `GRID_COLS` columns.
pub open spec fn grid_fold(acc: i64, rows: int) -> i64
    decreases rows,
{
    if rows <= 0 {
        acc
    } else {
        row_fold(grid_fold(acc, rows - 1), (rows - 1) as i64, GRID_COLS as int)
    }
}

/// The value the workload computes.
pub open spec fn workload_value() -> i64 {
    grid_fold(0, GRID_ROWS as int)
}

/// The fixed workload timed by every sampler. Deterministic: the result is
/// always `workload_value()`; the barrier only keeps the computation from
/// being optimized away.
#[inline(never)]
pub fn dummy_func() -> (r: i64)
    ensures
        r == workload_value(),
{
    let mut acc: i64 = 0;
    let mut i: i64 = 0;
    while i < GRID_ROWS
        invariant
            0 <= i <= GRID_ROWS,
            acc == grid_fold(0, i as int),
        decreases GRID_ROWS - i,
    {
        let mut j: i64 = 0;
        while j < GRID_COLS
            invariant
                0 <= i < GRID_ROWS,
                0 <= j <= GRID_COLS,
                acc == row_fold(grid_fold(0, i as int), i, j as int),
            decreases GRID_COLS - j,
        {
            assert(0 <= i * j < 870) by (nonlinear_arith)
                requires
                    0 <= i < 30,
                    0 <= j < 29,
            ;
            acc = acc ^ core::hint::black_box(i * j);
            j = j + 1;
        }
        i = i + 1;
    }
    acc
}

} // verus!
