//! How the residual of the Poisson solver behaves from sweep to sweep.

use vstd::prelude::*;
use vstd::arithmetic::div_mod::{lemma_fundamental_div_mod, lemma_mod_bound, lemma_div_pos_is_pos};
use crate::effect_helper::poisson_editing::Problem;
use crate::raster::offset;

verus! {

/// The distance of a number from zero.
pub open spec fn magnitude(v: int) -> int {
    if v < 0 {
        -v
    } else {
        v
    }
}

/// The sum of the first `m` entries of a sequence.
pub open spec fn prefix(s: Seq<int>, m: int) -> int
    decreases m,
{
    if m <= 0 {
        0
    } else {
        prefix(s, m - 1) + s[m - 1]
    }
}

proof fn lemma_prefix_le(a: Seq<int>, b: Seq<int>, m: int)
    requires
        0 <= m <= a.len(),
        m <= b.len(),
        forall|i: int| 0 <= i < m ==> a[i] <= b[i],
    ensures
        prefix(a, m) <= prefix(b, m),
    decreases m,
{
    if m > 0 {
        lemma_prefix_le(a, b, m - 1);
    }
}

proof fn lemma_prefix_sum(a: Seq<int>, b: Seq<int>, c: Seq<int>, m: int)
    requires
        0 <= m <= a.len(),
        m <= b.len(),
        m <= c.len(),
        forall|i: int| 0 <= i < m ==> c[i] == a[i] + b[i],
    ensures
        prefix(c, m) == prefix(a, m) + prefix(b, m),
    decreases m,
{
    if m > 0 {
        lemma_prefix_sum(a, b, c, m - 1);
    }
}

proof fn lemma_prefix_times(a: Seq<int>, b: Seq<int>, k: int, m: int)
    requires
        0 <= m <= a.len(),
        m <= b.len(),
        forall|i: int| 0 <= i < m ==> b[i] == k * a[i],
    ensures
        prefix(b, m) == k * prefix(a, m),
    decreases m,
{
    if m > 0 {
        lemma_prefix_times(a, b, k, m - 1);
        assert(k * (prefix(a, m - 1) + a[m - 1]) == k * prefix(a, m - 1) + k * a[m - 1])
            by (nonlinear_arith);
    }
}

proof fn lemma_prefix_grows(a: Seq<int>, m1: int, m2: int)
    requires
        0 <= m1 <= m2 <= a.len(),
        forall|i: int| 0 <= i < a.len() ==> 0 <= a[i],
    ensures
        0 <= prefix(a, m1) <= prefix(a, m2),
    decreases m2,
{
    if m2 > m1 {
        lemma_prefix_grows(a, m1, m2 - 1);
    } else if m1 > 0 {
        lemma_prefix_grows(a, m1 - 1, m1 - 1);
    }
}

/// Entries that are bounded by those `k` places further on add up to no
/// more than those do.
proof fn lemma_shift_forward(a: Seq<int>, b: Seq<int>, k: int, m: int)
    requires
        0 <= k,
        a.len() == b.len(),
        0 <= m <= a.len(),
        forall|i: int| 0 <= i < a.len() ==> 0 <= a[i],
        forall|i: int|
            0 <= i < b.len() ==> b[i] <= (if i + k < a.len() {
                a[i + k]
            } else {
                0
            }),
    ensures
        prefix(b, m) <= prefix(a, if m + k < a.len() {
            m + k
        } else {
            a.len() as int
        }),
    decreases m,
{
    if m > 0 {
        lemma_shift_forward(a, b, k, m - 1);
    } else {
        lemma_prefix_grows(a, 0, if k < a.len() {
            k
        } else {
            a.len() as int
        });
    }
}

/// Entries that are bounded by those `d` places back add up to no more
/// than those do.
proof fn lemma_shift_back(a: Seq<int>, b: Seq<int>, d: int, m: int)
    requires
        0 <= d,
        a.len() == b.len(),
        0 <= m <= a.len(),
        forall|i: int| 0 <= i < a.len() ==> 0 <= a[i],
        forall|i: int|
            0 <= i < b.len() ==> b[i] <= (if i >= d {
                a[i - d]
            } else {
                0
            }),
    ensures
        prefix(b, m) <= prefix(a, if m >= d {
            m - d
        } else {
            0
        }),
    decreases m,
{
    if m > 0 {
        lemma_shift_back(a, b, d, m - 1);
    }
}

impl Problem {
    /// The imbalance of every cell, as a magnitude.
    pub open spec fn imbalances(self, estimate: Seq<int>) -> Seq<int> {
        Seq::new(self.area(), |i: int| magnitude(self.imbalance(estimate, i)))
    }

    /// What the rounding of a sweep takes from a masked cell, in quarters
    /// of the smallest fixed-point step: the remainder of its neighbour sum.
    pub open spec fn remainder(self, estimate: Seq<int>, i: int) -> int {
        if self.mask[i] {
            self.grid_sums(estimate)[i] % 4
        } else {
            0
        }
    }

    /// The remainders of all cells.
    pub open spec fn remainders(self, estimate: Seq<int>) -> Seq<int> {
        Seq::new(self.area(), |i: int| self.remainder(estimate, i))
    }

    /// The sum of the remainders of all cells.
    pub open spec fn rounding(self, estimate: Seq<int>) -> int {
        prefix(self.remainders(estimate), self.area() as int)
    }

    /// By how much a sweep lowers each cell.
    pub open spec fn drops(self, estimate: Seq<int>) -> Seq<int> {
        Seq::new(self.area(), |i: int| estimate[i] - self.relax(estimate)[i])
    }
}

proof fn lemma_residual_is_prefix(problem: Problem, estimate: Seq<int>, m: int)
    requires
        0 <= m <= problem.area(),
    ensures
        problem.residual_upto(estimate, m) == prefix(problem.imbalances(estimate), m),
    decreases m,
{
    if m > 0 {
        lemma_residual_is_prefix(problem, estimate, m - 1);
    }
}

/// The place of a cell among its row: where the cell sits and what lies
/// around it.
proof fn lemma_cell(problem: Problem, i: int)
    requires
        0 <= i < problem.area(),
    ensures
        problem.cols > 0,
        0 <= i / (problem.cols as int) < problem.rows,
        0 <= i % (problem.cols as int) < problem.cols,
        offset(problem.cols as int, i % (problem.cols as int), i / (problem.cols as int)) == i,
        offset(problem.cols as int, i % (problem.cols as int), i / (problem.cols as int) - 1) == i
            - problem.cols,
        offset(problem.cols as int, i % (problem.cols as int), i / (problem.cols as int) + 1) == i
            + problem.cols,
        i / (problem.cols as int) >= 1 ==> i >= problem.cols,
        i / (problem.cols as int) + 1 < problem.rows ==> i + problem.cols < problem.area(),
{
    let cols = problem.cols as int;
    let rows = problem.rows as int;
    if cols == 0 {
        assert(rows * cols == 0) by (nonlinear_arith)
            requires
                cols == 0,
        ;
    }
    lemma_fundamental_div_mod(i, cols);
    lemma_mod_bound(i, cols);
    lemma_div_pos_is_pos(i, cols);
    let r = i / cols;
    let c = i % cols;
    assert(cols * r == r * cols) by (nonlinear_arith);
    assert((r - 1) * cols == r * cols - cols) by (nonlinear_arith);
    assert((r + 1) * cols == r * cols + cols) by (nonlinear_arith);
    if r >= rows {
        assert(r * cols >= rows * cols) by (nonlinear_arith)
            requires
                r >= rows,
                cols > 0,
        ;
    }
    if r >= 1 {
        assert(r * cols >= cols) by (nonlinear_arith)
            requires
                r >= 1,
                cols > 0,
        ;
    }
    if r + 1 < rows {
        assert((r + 2) * cols <= rows * cols) by (nonlinear_arith)
            requires
                r + 2 <= rows,
                cols > 0,
        ;
        assert((r + 2) * cols == r * cols + cols + cols) by (nonlinear_arith);
    }
}

/// One sweep raises the residual by no more than twice what its rounding
/// takes: the residual after the sweep is at most the residual before it
/// plus twice the sum of the remainders.
pub proof fn lemma_residual_after_sweep(problem: Problem, estimate: Seq<int>)
    requires
        problem.mask.len() == problem.area(),
        problem.grad.len() == problem.area(),
        estimate.len() == problem.area(),
    ensures
        problem.residual(problem.relax(estimate)) <= problem.residual(estimate) + 2
            * problem.rounding(estimate),
        0 <= problem.rounding(estimate) <= 3 * problem.area(),
{
    let n = problem.area() as int;
    let cols = problem.cols as int;
    let after = problem.relax(estimate);
    let before_abs = problem.imbalances(estimate);
    let after_abs = problem.imbalances(after);
    let rest = problem.remainders(estimate);
    let drop = problem.drops(estimate);
    let drop_abs = Seq::new(n as nat, |i: int| magnitude(drop[i]));
    let up = Seq::new(n as nat, |i: int| problem.padded(drop_abs, i / cols - 1, i % cols));
    let down = Seq::new(n as nat, |i: int| problem.padded(drop_abs, i / cols + 1, i % cols));
    let left = Seq::new(n as nat, |i: int| problem.padded(drop_abs, i / cols, i % cols - 1));
    let right = Seq::new(n as nat, |i: int| problem.padded(drop_abs, i / cols, i % cols + 1));
    let around = Seq::new(n as nat, |i: int| up[i] + down[i] + left[i] + right[i]);
    let bound = Seq::new(n as nat, |i: int| rest[i] + around[i]);
    let quad = Seq::new(n as nat, |i: int| 4 * drop_abs[i]);
    let paid = Seq::new(n as nat, |i: int| before_abs[i] + rest[i]);
    let up_down = Seq::new(n as nat, |i: int| up[i] + down[i]);
    let left_right = Seq::new(n as nat, |i: int| left[i] + right[i]);

    // What each cell contributes after the sweep.
    assert forall|i: int| 0 <= i < n implies 0 <= rest[i] <= 3 && 4 * drop_abs[i] <= before_abs[i]
        + rest[i] && after_abs[i] <= bound[i] by {
        lemma_cell(problem, i);
        let r = i / cols;
        let c = i % cols;
        let sum = problem.grid_sums(estimate)[i];
        lemma_fundamental_div_mod(sum, 4);
        lemma_mod_bound(sum, 4);
        if problem.mask[i] {
            assert(drop[i] == estimate[i] - sum / 4);
            assert(problem.imbalance(estimate, i) == 4 * estimate[i] - sum);
            assert(4 * drop[i] == problem.imbalance(estimate, i) + rest[i]);
            lemma_neighbors_after(problem, estimate, i);
        } else {
            assert(drop[i] == 0);
        }
        lemma_padded_magnitude(problem, drop, drop_abs, r - 1, c);
        lemma_padded_magnitude(problem, drop, drop_abs, r + 1, c);
        lemma_padded_magnitude(problem, drop, drop_abs, r, c - 1);
        lemma_padded_magnitude(problem, drop, drop_abs, r, c + 1);
    }
    // Each neighbourhood sum is a shifted copy of the drops.
    assert forall|i: int| 0 <= i < n implies up[i] <= (if i >= cols {
        drop_abs[i - cols]
    } else {
        0
    }) && down[i] <= (if i + cols < n {
        drop_abs[i + cols]
    } else {
        0
    }) && left[i] <= (if i >= 1 {
        drop_abs[i - 1]
    } else {
        0
    }) && right[i] <= (if i + 1 < n {
        drop_abs[i + 1]
    } else {
        0
    }) by {
        lemma_cell(problem, i);
    }
    lemma_shift_back(drop_abs, up, cols, n);
    lemma_shift_forward(drop_abs, down, cols, n);
    lemma_shift_back(drop_abs, left, 1, n);
    lemma_shift_forward(drop_abs, right, 1, n);
    lemma_prefix_grows(drop_abs, if n >= cols {
        n - cols
    } else {
        0
    }, n);
    lemma_prefix_grows(drop_abs, if n >= 1 {
        n - 1
    } else {
        0
    }, n);
    // Adding up.
    lemma_prefix_sum(up, down, up_down, n);
    lemma_prefix_sum(left, right, left_right, n);
    lemma_prefix_sum(up_down, left_right, around, n);
    lemma_prefix_sum(rest, around, bound, n);
    lemma_prefix_le(after_abs, bound, n);
    lemma_prefix_times(drop_abs, quad, 4, n);
    lemma_prefix_sum(before_abs, rest, paid, n);
    lemma_prefix_le(quad, paid, n);
    lemma_residual_is_prefix(problem, estimate, n);
    lemma_residual_is_prefix(problem, after, n);
    lemma_prefix_grows(rest, 0, n);
    let threes = Seq::new(n as nat, |i: int| 3int);
    let ones = Seq::new(n as nat, |i: int| 1int);
    lemma_prefix_le(rest, threes, n);
    lemma_prefix_times(ones, threes, 3, n);
    lemma_prefix_of_ones(ones, n);
}

proof fn lemma_prefix_of_ones(ones: Seq<int>, m: int)
    requires
        0 <= m <= ones.len(),
        forall|i: int| 0 <= i < ones.len() ==> ones[i] == 1,
    ensures
        prefix(ones, m) == m,
    decreases m,
{
    if m > 0 {
        lemma_prefix_of_ones(ones, m - 1);
    }
}

/// The magnitude of a grid, continued by zero, is the continued grid of
/// magnitudes.
proof fn lemma_padded_magnitude(problem: Problem, grid: Seq<int>, sizes: Seq<int>, r: int, c: int)
    requires
        grid.len() == problem.area(),
        sizes.len() == problem.area(),
        forall|i: int| 0 <= i < problem.area() ==> sizes[i] == magnitude(grid[i]),
    ensures
        problem.padded(sizes, r, c) == magnitude(problem.padded(grid, r, c)),
{
    if 0 <= r < problem.rows && 0 <= c < problem.cols {
        crate::raster::lemma_offset_in_range(problem.cols as int, problem.rows as int, c, r);
        assert(problem.cols * problem.rows == problem.rows * problem.cols) by (nonlinear_arith);
    }
}

/// After a sweep, a masked cell misses the equation by what its
/// neighbours dropped less its own remainder.
proof fn lemma_neighbors_after(problem: Problem, estimate: Seq<int>, i: int)
    requires
        problem.mask.len() == problem.area(),
        problem.grad.len() == problem.area(),
        estimate.len() == problem.area(),
        0 <= i < problem.area(),
        problem.mask[i],
    ensures
        ({
            let cols = problem.cols as int;
            let drop = problem.drops(estimate);
            problem.imbalance(problem.relax(estimate), i) == problem.padded(
                drop,
                i / cols - 1,
                i % cols,
            ) + problem.padded(drop, i / cols + 1, i % cols) + problem.padded(
                drop,
                i / cols,
                i % cols - 1,
            ) + problem.padded(drop, i / cols, i % cols + 1) - problem.remainder(estimate, i)
        }),
{
    let cols = problem.cols as int;
    let r = i / cols;
    let c = i % cols;
    let after = problem.relax(estimate);
    let drop = problem.drops(estimate);
    lemma_cell(problem, i);
    let sum = problem.grid_sums(estimate)[i];
    lemma_fundamental_div_mod(sum, 4);
    lemma_padded_drop(problem, estimate, r - 1, c);
    lemma_padded_drop(problem, estimate, r + 1, c);
    lemma_padded_drop(problem, estimate, r, c - 1);
    lemma_padded_drop(problem, estimate, r, c + 1);
    assert(problem.grid_sums(after)[i] == problem.neighbor_sum(after, r, c));
    assert(sum == problem.neighbor_sum(estimate, r, c));
    assert(after[i] == sum / 4);
}

/// What a cell holds after a sweep is what it held less its drop, also
/// beyond the edge.
proof fn lemma_padded_drop(problem: Problem, estimate: Seq<int>, r: int, c: int)
    requires
        estimate.len() == problem.area(),
    ensures
        problem.padded(problem.relax(estimate), r, c) == problem.padded(estimate, r, c)
            - problem.padded(problem.drops(estimate), r, c),
{
    if 0 <= r < problem.rows && 0 <= c < problem.cols {
        crate::raster::lemma_offset_in_range(problem.cols as int, problem.rows as int, c, r);
        assert(problem.cols * problem.rows == problem.rows * problem.cols) by (nonlinear_arith);
    }
}

/// However many sweeps have run, the next one raises the residual by no
/// more than twice what its rounding takes, which is less than six of the
/// smallest fixed-point steps for each cell.
pub proof fn lemma_residual_after_sweeps(problem: Problem, estimate: Seq<int>, n: nat)
    requires
        problem.mask.len() == problem.area(),
        problem.grad.len() == problem.area(),
        estimate.len() == problem.area(),
    ensures
        problem.residual(problem.relax_n(estimate, n + 1)) <= problem.residual(
            problem.relax_n(estimate, n),
        ) + 2 * problem.rounding(problem.relax_n(estimate, n)),
        problem.residual(problem.relax_n(estimate, n + 1)) <= problem.residual(
            problem.relax_n(estimate, n),
        ) + 6 * problem.area(),
{
    crate::effect_helper::poisson_editing::lemma_relax_n_keeps(problem, estimate, n);
    lemma_residual_after_sweep(problem, problem.relax_n(estimate, n));
    assert(problem.relax_n(estimate, n + 1) == problem.relax(
        problem.relax_n(estimate, ((n + 1) - 1) as nat),
    ));
}

/// A residual is never less than nothing.
pub proof fn lemma_residual_not_negative(problem: Problem, estimate: Seq<int>)
    ensures
        problem.residual(estimate) >= 0,
{
    lemma_residual_upto_not_negative(problem, estimate, problem.area() as int);
}

proof fn lemma_residual_upto_not_negative(problem: Problem, estimate: Seq<int>, upto: int)
    ensures
        problem.residual_upto(estimate, upto) >= 0,
    decreases upto,
{
    if upto > 0 {
        lemma_residual_upto_not_negative(problem, estimate, upto - 1);
    }
}

/// However many sweeps have run, `more` further sweeps raise the residual
/// by no more than their rounding takes: less than six of the smallest
/// fixed-point steps for each cell and sweep.
pub proof fn lemma_residual_after_more_sweeps(
    problem: Problem,
    estimate: Seq<int>,
    n: nat,
    more: nat,
)
    requires
        problem.mask.len() == problem.area(),
        problem.grad.len() == problem.area(),
        estimate.len() == problem.area(),
    ensures
        0 <= problem.residual(problem.relax_n(estimate, n + more)) <= problem.residual(
            problem.relax_n(estimate, n),
        ) + 6 * problem.area() * more,
    decreases more,
{
    lemma_residual_not_negative(problem, problem.relax_n(estimate, n + more));
    if more > 0 {
        let fewer = (more - 1) as nat;
        lemma_residual_after_more_sweeps(problem, estimate, n, fewer);
        lemma_residual_after_sweeps(problem, estimate, n + fewer);
        assert(n + fewer + 1 == n + more);
        assert(6 * problem.area() * more == 6 * problem.area() * fewer + 6 * problem.area())
            by (nonlinear_arith)
            requires
                more == fewer + 1,
        ;
    }
}

/// Where no cell has a remainder, so that a sweep rounds nothing, the
/// sweep does not raise the residual.
pub proof fn lemma_exact_sweep_lowers_residual(problem: Problem, estimate: Seq<int>)
    requires
        problem.mask.len() == problem.area(),
        problem.grad.len() == problem.area(),
        estimate.len() == problem.area(),
        forall|i: int| 0 <= i < problem.area() ==> problem.remainder(estimate, i) == 0,
    ensures
        problem.residual(problem.relax(estimate)) <= problem.residual(estimate),
{
    lemma_residual_after_sweep(problem, estimate);
    let n = problem.area() as int;
    let zeros = Seq::new(n as nat, |i: int| 0int);
    lemma_prefix_le(problem.remainders(estimate), zeros, n);
    lemma_prefix_times(zeros, zeros, 0, n);
}

} // verus!
