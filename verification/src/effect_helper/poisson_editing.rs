//! Poisson image editing: blending one image into another so that the
//! gradients of the result are those wanted, by sweeps of relaxation in
//! fixed point.

use vstd::prelude::*;
use vstd::arithmetic::div_mod::lemma_fundamental_div_mod_converse;
use crate::error::Error;
use crate::raster::{offset, lemma_offset_in_range, Image};

verus! {

/// The solver holds its numbers in fixed point: an `i64` that stands for its
/// value divided by `ONE`, so that 32 bits lie behind the binary point.
pub const ONE: i64 = 0x1_0000_0000;

/// One half, in fixed point.
pub const HALF: i64 = 0x8000_0000;

/// The largest sample of an image, 255, in fixed point.
pub const SAMPLE_MAX: i64 = 0xff_0000_0000;

/// The largest magnitude of an estimate that a solver starts from: 2 to the
/// 23rd, in fixed point. From there the sweeps that `SWEEP_LIMIT` allows
/// cannot take a number out of `i64`.
pub const ESTIMATE_MAX: i64 = 0x80_0000_0000_0000;

/// The largest magnitude of a gradient field: four differences of samples.
pub const FIELD_MAX: i64 = 0x3fc_0000_0000;

/// The number of sweeps one solver may run before its numbers could leave `i64`.
pub const SWEEP_LIMIT: usize = 1_000_000;

/// A discrete Poisson problem on a grid of `rows` by `cols` cells, each grid
/// stored row by row: which cells are to be solved for, and the gradient
/// field that the solution is to have there.
pub struct Problem {
    pub rows: nat,
    pub cols: nat,
    pub mask: Seq<bool>,
    pub grad: Seq<int>,
}

impl Problem {
    /// The number of cells.
    pub open spec fn area(self) -> nat {
        self.rows * self.cols
    }

    /// Mask and field have one entry for each cell, and the field is one
    /// that differences of samples can make.
    pub open spec fn wf(self) -> bool {
        &&& self.mask.len() == self.area()
        &&& self.grad.len() == self.area()
        &&& forall|i: int| 0 <= i < self.area() ==> -FIELD_MAX <= #[trigger] self.grad[i] <= FIELD_MAX
    }

    /// The value of `grid` at row `r` and column `c`, and zero beyond the edge.
    pub open spec fn padded(self, grid: Seq<int>, r: int, c: int) -> int {
        if 0 <= r < self.rows && 0 <= c < self.cols {
            grid[offset(self.cols as int, c, r)]
        } else {
            0
        }
    }

    /// The field at a cell plus the estimate at its four neighbours, where
    /// a neighbour beyond the edge counts as zero.
    pub open spec fn neighbor_sum(self, estimate: Seq<int>, r: int, c: int) -> int {
        self.grad[offset(self.cols as int, c, r)] + self.padded(estimate, r - 1, c) + self.padded(
            estimate,
            r + 1,
            c,
        ) + self.padded(estimate, r, c - 1) + self.padded(estimate, r, c + 1)
    }

    /// The neighbour sums of all cells.
    pub open spec fn grid_sums(self, estimate: Seq<int>) -> Seq<int> {
        Seq::new(
            self.area(),
            |i: int| self.neighbor_sum(estimate, i / (self.cols as int), i % (self.cols as int)),
        )
    }

    /// One relaxation sweep: a masked cell becomes a quarter of its neighbour
    /// sum, rounded down to the next fixed-point number; any other cell stays.
    pub open spec fn relax(self, estimate: Seq<int>) -> Seq<int> {
        Seq::new(
            self.area(),
            |i: int|
                if self.mask[i] {
                    self.grid_sums(estimate)[i] / 4
                } else {
                    estimate[i]
                },
        )
    }

    /// `n` relaxation sweeps, one after the other.
    pub open spec fn relax_n(self, estimate: Seq<int>, n: nat) -> Seq<int>
        decreases n,
    {
        if n == 0 {
            estimate
        } else {
            self.relax(self.relax_n(estimate, (n - 1) as nat))
        }
    }

    /// By how much a masked cell misses the discrete Poisson equation.
    pub open spec fn imbalance(self, estimate: Seq<int>, i: int) -> int {
        if self.mask[i] {
            4 * estimate[i] - self.grid_sums(estimate)[i]
        } else {
            0
        }
    }

    /// The sum of the magnitudes of the imbalance over the first `n` cells.
    pub open spec fn residual_upto(self, estimate: Seq<int>, n: int) -> int
        decreases n,
    {
        if n <= 0 {
            0
        } else {
            self.residual_upto(estimate, n - 1) + vstd::math::abs(self.imbalance(estimate, n - 1))
        }
    }

    /// The residual: the sum of the magnitudes of the imbalance over all cells.
    pub open spec fn residual(self, estimate: Seq<int>) -> int {
        self.residual_upto(estimate, self.area() as int)
    }
}

/// The 8-bit sample that a fixed-point value becomes: cut off at 0 and 255,
/// then rounded down.
pub open spec fn to_sample(v: int) -> u8 {
    if v <= 0 {
        0
    } else if v >= SAMPLE_MAX {
        255
    } else {
        (v / (ONE as int)) as u8
    }
}

/// Each value of a grid as an 8-bit sample.
pub open spec fn to_samples(estimate: Seq<int>) -> Seq<u8> {
    Seq::new(estimate.len(), |i: int| to_sample(estimate[i]))
}

/// The numbers of a buffer as mathematical integers.
pub open spec fn ints(v: Seq<i64>) -> Seq<int> {
    Seq::new(v.len(), |i: int| v[i] as int)
}

/// The bound on the magnitude of an estimate after `sweeps` sweeps: each
/// sweep adds at most a quarter of the largest field to the largest start.
pub open spec fn peak(sweeps: nat) -> int {
    ESTIMATE_MAX + SAMPLE_MAX * sweeps
}

/// The cell in row `r` and column `c` is the one at `r * cols + c`.
pub proof fn lemma_flat_index(cols: int, r: int, c: int)
    requires
        0 <= c < cols,
        0 <= r,
    ensures
        offset(cols, c, r) / cols == r,
        offset(cols, c, r) % cols == c,
        offset(cols, c, r) >= 0,
{
    lemma_fundamental_div_mod_converse(offset(cols, c, r), cols, r, c);
    assert(r * cols >= 0) by (nonlinear_arith)
        requires
            r >= 0,
            cols > 0,
    ;
}

/// Whether every value of a buffer lies between `low` and `high`.
pub fn all_between(values: &Vec<i64>, low: i64, high: i64) -> (ok: bool)
    ensures
        ok == (forall|i: int| 0 <= i < values@.len() ==> low <= #[trigger] values@[i] <= high),
{
    let mut i: usize = 0;
    while i < values.len()
        invariant
            i <= values@.len(),
            forall|k: int| 0 <= k < i ==> low <= #[trigger] values@[k] <= high,
        decreases values@.len() - i,
    {
        if values[i] < low || values[i] > high {
            return false;
        }
        i = i + 1;
    }
    true
}

/// A quarter of `sum`, rounded down.
fn floor_quarter(sum: i64) -> (q: i64)
    ensures
        q == sum as int / 4,
{
    if sum >= 0 {
        sum / 4
    } else {
        let below: i64 = -1 - sum;
        -1 - below / 4
    }
}

/// The state of an iterative solver for one discrete Poisson problem: the
/// problem and the current estimate of its solution.
pub struct Solver {
    rows: usize,
    cols: usize,
    mask: Vec<bool>,
    target: Vec<i64>,
    grad: Vec<i64>,
    sweeps: usize,
}

impl Solver {
    /// The problem that is being solved.
    pub closed spec fn problem(&self) -> Problem {
        Problem {
            rows: self.rows as nat,
            cols: self.cols as nat,
            mask: self.mask@,
            grad: ints(self.grad@),
        }
    }

    /// The current estimate, in fixed point, row by row.
    pub closed spec fn estimate(&self) -> Seq<int> {
        ints(self.target@)
    }

    /// How many sweeps it took to reach the current estimate.
    pub closed spec fn sweeps_done(&self) -> nat {
        self.sweeps as nat
    }

    /// The estimate has one entry for each cell of a well-formed problem, and
    /// no entry is larger than that many sweeps can make it.
    pub open spec fn wf(&self) -> bool {
        &&& self.problem().wf()
        &&& self.problem().area() <= usize::MAX
        &&& self.estimate().len() == self.problem().area()
        &&& self.sweeps_done() <= SWEEP_LIMIT
        &&& forall|i: int|
            0 <= i < self.estimate().len() ==> -peak(self.sweeps_done())
                <= #[trigger] self.estimate()[i] <= peak(self.sweeps_done())
    }

    /// The current estimate, in fixed point, row by row.
    pub fn values(&self) -> (v: &Vec<i64>)
        ensures
            ints(v@) == self.estimate(),
    {
        &self.target
    }

    /// How many sweeps it took to reach the current estimate.
    pub fn sweeps(&self) -> (n: usize)
        ensures
            n == self.sweeps_done(),
    {
        self.sweeps
    }

    /// Sets up a solver for the cells of `mask`, with the gradient field
    /// `grad`, starting from `target`, and runs one sweep on it. The target
    /// may hold any number up to `ESTIMATE_MAX` in magnitude and the field
    /// any up to `FIELD_MAX`: whatever `SWEEP_LIMIT` sweeps make of such
    /// numbers fits in `i64`.
    pub fn reset(
        rows: usize,
        cols: usize,
        mask: Vec<bool>,
        target: Vec<i64>,
        grad: Vec<i64>,
    ) -> (r: Result<Solver, Error>)
        requires
            forall|i: int|
                0 <= i < target@.len() ==> -ESTIMATE_MAX <= #[trigger] target@[i] <= ESTIMATE_MAX,
            forall|i: int| 0 <= i < grad@.len() ==> -FIELD_MAX <= #[trigger] grad@[i] <= FIELD_MAX,
        ensures
            r is Ok <==> mask@.len() == rows * cols && target@.len() == rows * cols && grad@.len()
                == rows * cols,
            r matches Err(e) ==> e == Error::DimensionMismatch,
            r matches Ok(s) ==> {
                &&& s.wf()
                &&& s.problem() == (Problem {
                    rows: rows as nat,
                    cols: cols as nat,
                    mask: mask@,
                    grad: ints(grad@),
                })
                &&& s.estimate() == s.problem().relax(ints(target@))
                &&& s.sweeps_done() == 1
            },
    {
        let n = mask.len();
        if target.len() != n || grad.len() != n {
            return Err(Error::DimensionMismatch);
        }
        let area = rows.checked_mul(cols);
        if area != Some(n) {
            return Err(Error::DimensionMismatch);
        }
        let mut solver = Solver { rows, cols, mask, target, grad, sweeps: 0 };
        assert(solver.wf());
        solver.sweep();
        Ok(solver)
    }

    /// Runs `iteration` sweeps. Returns the estimate as 8-bit samples and the
    /// residual of the estimate, in fixed point. Where the mask names no
    /// cell the estimate stays as it is and the residual is zero.
    pub fn step(&mut self, iteration: usize) -> (r: (Vec<u8>, u128))
        requires
            old(self).wf(),
            old(self).sweeps_done() + iteration <= SWEEP_LIMIT,
        ensures
            final(self).wf(),
            final(self).problem() == old(self).problem(),
            final(self).estimate() == old(self).problem().relax_n(
                old(self).estimate(),
                iteration as nat,
            ),
            final(self).sweeps_done() == old(self).sweeps_done() + iteration,
            r.0@ == to_samples(final(self).estimate()),
            r.1 == final(self).problem().residual(final(self).estimate()),
            (forall|i: int|
                0 <= i < old(self).problem().area() ==> !#[trigger] old(self).problem().mask[i])
                ==> final(self).estimate() == old(self).estimate() && r.1 == 0,
    {
        let mut done: usize = 0;
        while done < iteration
            invariant
                done <= iteration,
                self.wf(),
                self.problem() == old(self).problem(),
                self.estimate() == old(self).problem().relax_n(old(self).estimate(), done as nat),
                self.sweeps_done() == old(self).sweeps_done() + done,
                old(self).sweeps_done() + iteration <= SWEEP_LIMIT,
            decreases iteration - done,
        {
            self.sweep();
            done = done + 1;
        }
        let samples = self.samples();
        let err = self.residual();
        proof {
            let problem = old(self).problem();
            if forall|i: int| 0 <= i < problem.area() ==> !#[trigger] problem.mask[i] {
                lemma_empty_mask_is_fixed(problem, old(self).estimate(), iteration as nat);
            }
        }
        (samples, err)
    }

    /// The neighbour sum of every cell.
    fn grid_iter(&self) -> (sums: Vec<i64>)
        requires
            self.wf(),
        ensures
            sums@.len() == self.problem().area(),
            ints(sums@) == self.problem().grid_sums(self.estimate()),
            forall|i: int|
                0 <= i < sums@.len() ==> -(FIELD_MAX + 4 * peak(self.sweeps_done()))
                    <= #[trigger] sums@[i] <= FIELD_MAX + 4 * peak(self.sweeps_done()),
    {
        let rows = self.rows;
        let cols = self.cols;
        let ghost p = self.problem();
        let ghost est = self.estimate();
        let ghost bound = peak(self.sweeps as nat);
        let ghost limit = FIELD_MAX + 4 * bound;
        assert(limit <= 0x3ecb_fafc_0000_0000) by (nonlinear_arith)
            requires
                limit == 0x3fc_0000_0000 + 4 * (0x80_0000_0000_0000 + 0xff_0000_0000
                    * self.sweeps),
                0 <= self.sweeps <= 1_000_000,
        ;
        assert(bound >= 0) by (nonlinear_arith)
            requires
                bound == 0x80_0000_0000_0000 + 0xff_0000_0000 * self.sweeps,
                0 <= self.sweeps,
        ;
        assert forall|j: int| 0 <= j < self.target@.len() implies -bound
            <= #[trigger] self.target@[j] <= bound by {
            assert(est[j] == self.target@[j]);
        }
        assert forall|j: int| 0 <= j < self.grad@.len() implies -FIELD_MAX
            <= #[trigger] self.grad@[j] <= FIELD_MAX by {
            assert(p.grad[j] == self.grad@[j]);
        }
        let mut sums: Vec<i64> = Vec::new();
        let mut r: usize = 0;
        while r < rows
            invariant
                self.wf(),
                forall|j: int|
                    0 <= j < self.target@.len() ==> -bound <= #[trigger] self.target@[j] <= bound,
                forall|j: int|
                    0 <= j < self.grad@.len() ==> -FIELD_MAX <= #[trigger] self.grad@[j]
                        <= FIELD_MAX,
                rows == self.rows,
                cols == self.cols,
                p == self.problem(),
                est == self.estimate(),
                bound == peak(self.sweeps as nat),
                limit == FIELD_MAX + 4 * bound,
                0 <= bound,
                limit <= 0x3ecb_fafc_0000_0000,
                r <= rows,
                sums@.len() == r * cols,
                forall|i: int| 0 <= i < sums@.len() ==> #[trigger] sums@[i] == p.grid_sums(est)[i],
                forall|i: int| 0 <= i < sums@.len() ==> -limit <= #[trigger] sums@[i] <= limit,
            decreases rows - r,
        {
            let mut c: usize = 0;
            while c < cols
                invariant
                    self.wf(),
                    forall|j: int|
                        0 <= j < self.target@.len() ==> -bound <= #[trigger] self.target@[j]
                            <= bound,
                    forall|j: int|
                        0 <= j < self.grad@.len() ==> -FIELD_MAX <= #[trigger] self.grad@[j]
                            <= FIELD_MAX,
                    rows == self.rows,
                    cols == self.cols,
                    p == self.problem(),
                    est == self.estimate(),
                    bound == peak(self.sweeps as nat),
                    limit == FIELD_MAX + 4 * bound,
                    0 <= bound,
                    limit <= 0x3ecb_fafc_0000_0000,
                    r < rows,
                    c <= cols,
                    sums@.len() == r * cols + c,
                    forall|i: int|
                        0 <= i < sums@.len() ==> #[trigger] sums@[i] == p.grid_sums(est)[i],
                    forall|i: int| 0 <= i < sums@.len() ==> -limit <= #[trigger] sums@[i] <= limit,
                decreases cols - c,
            {
                proof {
                    lemma_offset_in_range(cols as int, rows as int, c as int, r as int);
                    lemma_flat_index(cols as int, r as int, c as int);
                    assert(offset(cols as int, c as int, r as int - 1) == r * cols + c - cols)
                        by (nonlinear_arith);
                    assert(offset(cols as int, c as int, r as int + 1) == r * cols + c + cols)
                        by (nonlinear_arith);
                    assert((r + 1) * cols <= rows * cols) by (nonlinear_arith)
                        requires
                            r + 1 <= rows,
                    ;
                    assert((r + 1) * cols == r * cols + cols) by (nonlinear_arith);
                    assert((r + 2) * cols == r * cols + cols + cols) by (nonlinear_arith);
                    if r + 1 < rows {
                        assert((r + 2) * cols <= rows * cols) by (nonlinear_arith)
                            requires
                                r + 2 <= rows,
                        ;
                    }
                    if r > 0 {
                        assert(r * cols >= cols) by (nonlinear_arith)
                            requires
                                r >= 1,
                        ;
                    }
                }
                let i: usize = r * cols + c;
                let mut s: i64 = self.grad[i];
                if r > 0 {
                    s = s + self.target[i - cols];
                }
                if r + 1 < rows {
                    s = s + self.target[i + cols];
                }
                if c > 0 {
                    s = s + self.target[i - 1];
                }
                if c + 1 < cols {
                    s = s + self.target[i + 1];
                }
                proof {
                    assert(p.grad[i as int] == self.grad@[i as int]);
                    if r > 0 {
                        assert(est[i - cols] == self.target@[i - cols]);
                    }
                    if r + 1 < rows {
                        assert(est[i + cols] == self.target@[i + cols]);
                    }
                    if c > 0 {
                        assert(est[i - 1] == self.target@[i - 1]);
                    }
                    if c + 1 < cols {
                        assert(est[i + 1] == self.target@[i + 1]);
                    }
                    assert(s == p.neighbor_sum(est, r as int, c as int));
                    assert(p.grid_sums(est)[i as int] == p.neighbor_sum(est, r as int, c as int));
                }
                sums.push(s);
                c = c + 1;
            }
            proof {
                assert((r + 1) * cols == r * cols + cols) by (nonlinear_arith);
            }
            r = r + 1;
        }
        proof {
            assert(ints(sums@) =~= p.grid_sums(est));
        }
        sums
    }

    /// One relaxation sweep.
    fn sweep(&mut self)
        requires
            old(self).wf(),
            old(self).sweeps_done() < SWEEP_LIMIT,
        ensures
            final(self).wf(),
            final(self).problem() == old(self).problem(),
            final(self).estimate() == old(self).problem().relax(old(self).estimate()),
            final(self).sweeps_done() == old(self).sweeps_done() + 1,
    {
        let sums = self.grid_iter();
        let n = self.target.len();
        let ghost p = self.problem();
        let ghost before = self.estimate();
        let ghost bound = peak(self.sweeps as nat);
        assert(FIELD_MAX + 4 * bound <= 0x3ecb_fafc_0000_0000 && bound >= 0
            && peak((self.sweeps + 1) as nat) == bound + SAMPLE_MAX) by (nonlinear_arith)
            requires
                bound == 0x80_0000_0000_0000 + 0xff_0000_0000 * self.sweeps,
                peak((self.sweeps + 1) as nat) == 0x80_0000_0000_0000 + 0xff_0000_0000 * (
                self.sweeps + 1),
                SAMPLE_MAX == 0xff_0000_0000,
                FIELD_MAX == 0x3fc_0000_0000,
                0 <= self.sweeps <= 1_000_000,
        ;
        assert forall|j: int| 0 <= j < self.target@.len() implies -bound
            <= #[trigger] self.target@[j] <= bound by {
            assert(self.estimate()[j] == self.target@[j]);
        }
        let mut i: usize = 0;
        while i < n
            invariant
                i <= n,
                n == self.target@.len(),
                n == p.area(),
                sums@.len() == n,
                self.mask@.len() == n,
                p.wf(),
                p == old(self).problem(),
                p == self.problem(),
                before == old(self).estimate(),
                before.len() == n,
                self.sweeps == old(self).sweeps,
                bound == peak(self.sweeps as nat),
                0 <= bound,
                FIELD_MAX + 4 * bound <= 0x3ecb_fafc_0000_0000,
                ints(sums@) == p.grid_sums(before),
                forall|j: int|
                    0 <= j < n ==> -(FIELD_MAX + 4 * bound) <= #[trigger] sums@[j] <= FIELD_MAX + 4
                        * bound,
                forall|j: int| 0 <= j < i ==> #[trigger] self.target@[j] == p.relax(before)[j],
                forall|j: int| i <= j < n ==> #[trigger] self.target@[j] == before[j],
                forall|j: int| 0 <= j < n ==> -bound <= #[trigger] before[j] <= bound,
                forall|j: int|
                    0 <= j < n ==> -(bound + SAMPLE_MAX) <= #[trigger] self.target@[j] <= bound
                        + SAMPLE_MAX,
            decreases n - i,
        {
            assert(ints(sums@)[i as int] == sums@[i as int]);
            assert(before[i as int] == self.target@[i as int]);
            if self.mask[i] {
                let q = floor_quarter(sums[i]);
                self.target.set(i, q);
            }
            i = i + 1;
        }
        self.sweeps = self.sweeps + 1;
        proof {
            assert(self.estimate() =~= p.relax(before));
        }
    }

    /// The estimate as 8-bit samples.
    fn samples(&self) -> (out: Vec<u8>)
        requires
            self.wf(),
        ensures
            out@ == to_samples(self.estimate()),
    {
        let n = self.target.len();
        let mut out: Vec<u8> = Vec::new();
        let mut i: usize = 0;
        while i < n
            invariant
                i <= n,
                n == self.target@.len(),
                out@.len() == i,
                forall|j: int| 0 <= j < i ==> #[trigger] out@[j] == to_sample(self.target@[j] as int),
            decreases n - i,
        {
            let v = self.target[i];
            let sample: u8 = if v <= 0 {
                0
            } else if v >= SAMPLE_MAX {
                255
            } else {
                (v / ONE) as u8
            };
            out.push(sample);
            i = i + 1;
        }
        proof {
            assert(out@ =~= to_samples(self.estimate()));
        }
        out
    }

    /// The residual of the estimate.
    fn residual(&self) -> (err: u128)
        requires
            self.wf(),
        ensures
            err == self.problem().residual(self.estimate()),
    {
        let sums = self.grid_iter();
        let n = self.target.len();
        let ghost p = self.problem();
        let ghost est = self.estimate();
        let ghost bound = peak(self.sweeps as nat);
        assert(FIELD_MAX + 8 * bound <= 0x7fff_ffff_ffff_ffff && bound >= 0) by (nonlinear_arith)
            requires
                bound == 0x80_0000_0000_0000 + 0xff_0000_0000 * self.sweeps,
                FIELD_MAX == 0x3fc_0000_0000,
                0 <= self.sweeps <= 1_000_000,
        ;
        assert forall|j: int| 0 <= j < self.target@.len() implies -bound
            <= #[trigger] self.target@[j] <= bound by {
            assert(self.estimate()[j] == self.target@[j]);
        }
        let mut err: u128 = 0;
        let mut i: usize = 0;
        while i < n
            invariant
                i <= n,
                n == self.target@.len(),
                n == p.area(),
                sums@.len() == n,
                self.mask@.len() == n,
                p == self.problem(),
                est == self.estimate(),
                0 <= bound,
                FIELD_MAX + 8 * bound <= 0x7fff_ffff_ffff_ffff,
                ints(sums@) == p.grid_sums(est),
                forall|j: int|
                    0 <= j < n ==> -(FIELD_MAX + 4 * bound) <= #[trigger] sums@[j] <= FIELD_MAX + 4
                        * bound,
                forall|j: int| 0 <= j < n ==> -bound <= #[trigger] self.target@[j] <= bound,
                err == p.residual_upto(est, i as int),
                err <= i * 0x7fff_ffff_ffff_ffff,
            decreases n - i,
        {
            assert(ints(sums@)[i as int] == sums@[i as int]);
            assert(est[i as int] == self.target@[i as int]);
            assert((i + 1) * 0x7fff_ffff_ffff_ffff <= 0xffff_ffff_ffff_ffff * 0x7fff_ffff_ffff_ffff)
                by (nonlinear_arith)
                requires
                    i + 1 <= 0xffff_ffff_ffff_ffff,
            ;
            assert((i + 1) * 0x7fff_ffff_ffff_ffff == i * 0x7fff_ffff_ffff_ffff
                + 0x7fff_ffff_ffff_ffff) by (nonlinear_arith);
            if self.mask[i] {
                let miss: i64 = 4 * self.target[i] - sums[i];
                let size: u64 = if miss >= 0 {
                    miss as u64
                } else {
                    (0 - miss) as u64
                };
                err = err + size as u128;
            }
            i = i + 1;
        }
        err
    }
}


/// How the gradient of the source and that of the target are combined.
#[derive(Clone, Copy, Debug, PartialEq, Eq, Structural)]
pub enum Gradient {
    /// Whichever of the two is larger in magnitude; the source's on a tie.
    Maximum,
    /// The source's gradient.
    Source,
    /// The mean of the two.
    Average,
}

/// The combination of a source difference `a` and a target difference `b`,
/// both in samples; the result is in fixed point.
pub open spec fn mix(gradient: Gradient, a: int, b: int) -> int {
    match gradient {
        Gradient::Average => (a + b) * HALF,
        Gradient::Source => a * ONE,
        Gradient::Maximum => if vstd::math::abs(a) >= vstd::math::abs(b) {
            a * ONE
        } else {
            b * ONE
        },
    }
}

/// Combines a source difference and a target difference.
fn mix_grad(gradient: Gradient, a: i64, b: i64) -> (m: i64)
    requires
        -255 <= a <= 255,
        -255 <= b <= 255,
    ensures
        m == mix(gradient, a as int, b as int),
        -SAMPLE_MAX <= m <= SAMPLE_MAX,
{
    match gradient {
        Gradient::Average => (a + b) * HALF,
        Gradient::Source => a * ONE,
        Gradient::Maximum => {
            let size_a: i64 = if a >= 0 { a } else { -a };
            let size_b: i64 = if b >= 0 { b } else { -b };
            if size_a >= size_b {
                a * ONE
            } else {
                b * ONE
            }
        },
    }
}

/// Whether some cell of column `x` is set.
pub open spec fn column_set(mask: Seq<bool>, rows: int, cols: int, x: int) -> bool {
    exists|y: int| 0 <= y < rows && #[trigger] mask[offset(cols, x, y)]
}

/// Whether some cell of row `y` is set.
pub open spec fn row_set(mask: Seq<bool>, rows: int, cols: int, y: int) -> bool {
    exists|x: int| 0 <= x < cols && #[trigger] mask[offset(cols, x, y)]
}

/// Whether any cell at all is set.
pub open spec fn any_set(mask: Seq<bool>, rows: int, cols: int) -> bool {
    exists|x: int, y: int| 0 <= x < cols && 0 <= y < rows && #[trigger] mask[offset(cols, x, y)]
}

/// The columns `x0..=x1` and rows `y0..=y1` are the smallest box that holds
/// every set cell.
pub open spec fn is_border(
    mask: Seq<bool>,
    rows: int,
    cols: int,
    border: (int, int, int, int),
) -> bool {
    let (x0, y0, x1, y1) = border;
    &&& 0 <= x0 <= x1 < cols
    &&& 0 <= y0 <= y1 < rows
    &&& column_set(mask, rows, cols, x0)
    &&& column_set(mask, rows, cols, x1)
    &&& row_set(mask, rows, cols, y0)
    &&& row_set(mask, rows, cols, y1)
    &&& forall|x: int, y: int|
        0 <= x < cols && 0 <= y < rows && #[trigger] mask[offset(cols, x, y)] ==> x0 <= x <= x1
            && y0 <= y <= y1
}

fn column_has(mask: &Vec<bool>, rows: usize, cols: usize, x: usize) -> (found: bool)
    requires
        mask@.len() == rows * cols,
        x < cols,
    ensures
        found == column_set(mask@, rows as int, cols as int, x as int),
{
    assert(mask.len() == mask@.len());
    let mut y: usize = 0;
    while y < rows
        invariant
            rows * cols <= usize::MAX,
            y <= rows,
            x < cols,
            mask@.len() == rows * cols,
            forall|k: int| 0 <= k < y ==> !#[trigger] mask@[offset(cols as int, x as int, k)],
        decreases rows - y,
    {
        proof {
            lemma_offset_in_range(cols as int, rows as int, x as int, y as int);
        }
        if mask[y * cols + x] {
            return true;
        }
        y = y + 1;
    }
    false
}

fn row_has(mask: &Vec<bool>, rows: usize, cols: usize, y: usize) -> (found: bool)
    requires
        mask@.len() == rows * cols,
        y < rows,
    ensures
        found == row_set(mask@, rows as int, cols as int, y as int),
{
    assert(mask.len() == mask@.len());
    let mut x: usize = 0;
    while x < cols
        invariant
            rows * cols <= usize::MAX,
            x <= cols,
            y < rows,
            mask@.len() == rows * cols,
            forall|k: int| 0 <= k < x ==> !#[trigger] mask@[offset(cols as int, k, y as int)],
        decreases cols - x,
    {
        proof {
            lemma_offset_in_range(cols as int, rows as int, x as int, y as int);
        }
        if mask[y * cols + x] {
            return true;
        }
        x = x + 1;
    }
    false
}

/// Finds the smallest box `(x0, y0, x1, y1)` of columns and rows that holds
/// every set cell of a mask, if any cell is set.
pub fn get_border(mask: &Vec<bool>, rows: usize, cols: usize) -> (r: Option<
    (usize, usize, usize, usize),
>)
    requires
        mask@.len() == rows * cols,
    ensures
        r is Some <==> any_set(mask@, rows as int, cols as int),
        r matches Some(border) ==> is_border(
            mask@,
            rows as int,
            cols as int,
            (border.0 as int, border.1 as int, border.2 as int, border.3 as int),
        ),
{
    let mut x0: usize = 0;
    while x0 < cols && !column_has(mask, rows, cols, x0)
        invariant
            x0 <= cols,
            mask@.len() == rows * cols,
            forall|k: int| 0 <= k < x0 ==> !column_set(mask@, rows as int, cols as int, k),
        decreases cols - x0,
    {
        x0 = x0 + 1;
    }
    if x0 == cols {
        proof {
            assert forall|x: int, y: int| 0 <= x < cols && 0 <= y < rows implies !#[trigger] mask@[offset(
                cols as int,
                x,
                y,
            )] by {
                if mask@[offset(cols as int, x, y)] {
                    assert(column_set(mask@, rows as int, cols as int, x));
                }
            }
        }
        return None;
    }
    let mut y0: usize = 0;
    while y0 < rows && !row_has(mask, rows, cols, y0)
        invariant
            y0 <= rows,
            mask@.len() == rows * cols,
            forall|k: int| 0 <= k < y0 ==> !row_set(mask@, rows as int, cols as int, k),
        decreases rows - y0,
    {
        y0 = y0 + 1;
    }
    let ghost wy = choose|y: int|
        0 <= y < rows && #[trigger] mask@[offset(cols as int, x0 as int, y)];
    assert(row_set(mask@, rows as int, cols as int, wy));
    assert(y0 < rows);
    let mut x1: usize = cols - 1;
    while x1 > x0 && !column_has(mask, rows, cols, x1)
        invariant
            x0 <= x1 < cols,
            mask@.len() == rows * cols,
            forall|k: int| x1 < k < cols ==> !column_set(mask@, rows as int, cols as int, k),
        decreases x1,
    {
        x1 = x1 - 1;
    }
    let mut y1: usize = rows - 1;
    while y1 > y0 && !row_has(mask, rows, cols, y1)
        invariant
            y0 <= y1 < rows,
            mask@.len() == rows * cols,
            forall|k: int| y1 < k < rows ==> !row_set(mask@, rows as int, cols as int, k),
        decreases y1,
    {
        y1 = y1 - 1;
    }
    proof {
        assert forall|x: int, y: int|
            0 <= x < cols && 0 <= y < rows && #[trigger] mask@[offset(
                cols as int,
                x,
                y,
            )] implies x0 <= x <= x1 && y0 <= y <= y1 by {
            assert(column_set(mask@, rows as int, cols as int, x));
            assert(row_set(mask@, rows as int, cols as int, y));
        }
    }
    Some((x0, y0, x1, y1))
}


/// A box of columns `x0..x1` and rows `y0..y1`, the ends left out.
#[derive(Clone, Copy, Debug, PartialEq, Eq, Structural)]
pub struct Region {
    pub x0: usize,
    pub y0: usize,
    pub x1: usize,
    pub y1: usize,
}

impl Region {
    pub open spec fn wf(self) -> bool {
        self.x0 <= self.x1 && self.y0 <= self.y1
    }

    pub open spec fn cols(self) -> nat {
        (self.x1 - self.x0) as nat
    }

    pub open spec fn rows(self) -> nat {
        (self.y1 - self.y0) as nat
    }

    pub open spec fn contains(self, x: int, y: int) -> bool {
        self.x0 <= x < self.x1 && self.y0 <= y < self.y1
    }

    /// The box moved right by `by.0` and down by `by.1`.
    pub open spec fn moved(self, by: (usize, usize)) -> Region {
        Region {
            x0: (self.x0 + by.0) as usize,
            y0: (self.y0 + by.1) as usize,
            x1: (self.x1 + by.0) as usize,
            y1: (self.y1 + by.1) as usize,
        }
    }

    /// Whether the box, moved right by `by.0` and down by `by.1`, lies
    /// inside an image.
    pub open spec fn fits(self, by: (usize, usize), image: Image) -> bool {
        by.0 + self.x1 <= image.spec_width() && by.1 + self.y1 <= image.spec_height()
    }
}

/// Whether the solver is to find the sample at `(x, y)`: the mask is light
/// there, and the place is not on the edge of the mask.
pub open spec fn solved(mask: Image, x: int, y: int) -> bool {
    &&& 0 < x < mask.spec_width() - 1
    &&& 0 < y < mask.spec_height() - 1
    &&& mask.at(x, y) >= 128
}

/// The cells of a mask image that the solver is to find, row by row.
pub open spec fn interior(mask: Image) -> Seq<bool> {
    Seq::new(
        mask@.len(),
        |i: int| solved(mask, i % (mask.spec_width() as int), i / (mask.spec_width() as int)),
    )
}

/// Whether `region` is the part of the mask that is worked on: the smallest
/// box around the cells to be found, one cell wider on each side; or, where
/// there is no such cell, the empty box at the origin.
pub open spec fn is_region(mask: Image, region: Region) -> bool {
    if any_set(interior(mask), mask.spec_height() as int, mask.spec_width() as int) {
        is_border(
            interior(mask),
            mask.spec_height() as int,
            mask.spec_width() as int,
            (region.x0 + 1, region.y0 + 1, region.x1 - 2, region.y1 - 2),
        )
    } else {
        region == (Region { x0: 0, y0: 0, x1: 0, y1: 0 })
    }
}

/// What a blend is made of: the image whose gradients are wanted, the mask
/// that says where, the image that is painted on, the place of the mask's
/// origin on either image, and how gradients are mixed.
pub struct Blend {
    pub source: Image,
    pub mask: Image,
    pub target: Image,
    pub on_source: (usize, usize),
    pub on_target: (usize, usize),
    pub gradient: Gradient,
}

impl Blend {
    pub open spec fn wf(self) -> bool {
        self.source.wf() && self.mask.wf() && self.target.wf()
    }

    /// The mixed difference between cell `(r, c)` of a region and the cell
    /// `(nr, nc)`; zero where that cell lies outside the region.
    pub open spec fn pull(self, region: Region, r: int, c: int, nr: int, nc: int) -> int {
        if 0 <= nr < region.rows() && 0 <= nc < region.cols() {
            let sx = self.on_source.0 + region.x0;
            let sy = self.on_source.1 + region.y0;
            let tx = self.on_target.0 + region.x0;
            let ty = self.on_target.1 + region.y0;
            mix(
                self.gradient,
                self.source.at(sx + c, sy + r) - self.source.at(sx + nc, sy + nr),
                self.target.at(tx + c, ty + r) - self.target.at(tx + nc, ty + nr),
            )
        } else {
            0
        }
    }

    /// The gradient field at cell `(r, c)` of a region: the mixed differences
    /// to the four neighbours, summed; zero where nothing is to be found.
    pub open spec fn field(self, region: Region, r: int, c: int) -> int {
        if solved(self.mask, region.x0 + c, region.y0 + r) {
            self.pull(region, r, c, r - 1, c) + self.pull(region, r, c, r + 1, c) + self.pull(
                region,
                r,
                c,
                r,
                c - 1,
            ) + self.pull(region, r, c, r, c + 1)
        } else {
            0
        }
    }

    /// The Poisson problem that the blend poses on a region.
    pub open spec fn problem(self, region: Region) -> Problem {
        let cols = region.cols() as int;
        Problem {
            rows: region.rows(),
            cols: region.cols(),
            mask: Seq::new(
                region.rows() * region.cols(),
                |i: int| solved(self.mask, region.x0 + i % cols, region.y0 + i / cols),
            ),
            grad: Seq::new(
                region.rows() * region.cols(),
                |i: int| self.field(region, i / cols, i % cols),
            ),
        }
    }

    /// The sample at `(x, y)` of the result after `sweeps` sweeps on a
    /// region: the solver's estimate where it is to find the sample, else
    /// the target's own.
    pub open spec fn painted(self, region: Region, sweeps: nat, x: int, y: int) -> u8 {
        let mx = x - self.on_target.0;
        let my = y - self.on_target.1;
        if region.contains(mx, my) && solved(self.mask, mx, my) {
            to_sample(
                self.problem(region).relax_n(self.start(region), sweeps)[offset(
                    region.cols() as int,
                    mx - region.x0,
                    my - region.y0,
                )],
            )
        } else {
            self.target.at(x, y)
        }
    }

    /// Whether `out` is the result of the blend after `sweeps` sweeps.
    pub open spec fn gives(self, sweeps: nat, out: Image) -> bool {
        exists|region: Region|
            {
                &&& #[trigger] is_region(self.mask, region)
                &&& region.fits(self.on_source, self.source)
                &&& region.fits(self.on_target, self.target)
                &&& out.wf()
                &&& out.same_shape(&self.target)
                &&& forall|x: int, y: int|
                    out.contains(x, y) ==> #[trigger] out.at(x, y) == self.painted(
                        region,
                        sweeps,
                        x,
                        y,
                    )
            }
    }

    /// The target's samples on a region, in fixed point.
    pub open spec fn start(self, region: Region) -> Seq<int> {
        let cols = region.cols() as int;
        let tx = self.on_target.0 + region.x0;
        let ty = self.on_target.1 + region.y0;
        Seq::new(
            region.rows() * region.cols(),
            |i: int| self.target.at(tx + i % cols, ty + i / cols) * ONE,
        )
    }
}

fn is_solved(mask: &Image, x: u32, y: u32) -> (set: bool)
    requires
        mask.wf(),
        mask.contains(x as int, y as int),
    ensures
        set == solved(*mask, x as int, y as int),
{
    0 < x && x < mask.width() - 1 && 0 < y && y < mask.height() - 1 && mask.get_pixel(x, y) >= 128
}

fn interior_mask(mask: &Image) -> (cells: Vec<bool>)
    requires
        mask.wf(),
    ensures
        cells@ == interior(*mask),
{
    let width = mask.width();
    let height = mask.height();
    let mut cells: Vec<bool> = Vec::new();
    let mut y: u32 = 0;
    while y < height
        invariant
            mask.wf(),
            width == mask.spec_width(),
            height == mask.spec_height(),
            y <= height,
            cells@.len() == y * width,
            forall|i: int| 0 <= i < cells@.len() ==> #[trigger] cells@[i] == interior(*mask)[i],
        decreases height - y,
    {
        let mut x: u32 = 0;
        while x < width
            invariant
                mask.wf(),
                width == mask.spec_width(),
                height == mask.spec_height(),
                y < height,
                x <= width,
                cells@.len() == y * width + x,
                forall|i: int| 0 <= i < cells@.len() ==> #[trigger] cells@[i] == interior(*mask)[i],
            decreases width - x,
        {
            proof {
                lemma_offset_in_range(width as int, height as int, x as int, y as int);
                lemma_flat_index(width as int, y as int, x as int);
            }
            let set = is_solved(mask, x, y);
            cells.push(set);
            x = x + 1;
        }
        proof {
            assert((y + 1) * width == y * width + width) by (nonlinear_arith);
        }
        y = y + 1;
    }
    proof {
        assert(height * width == width * height) by (nonlinear_arith);
        assert(cells@ =~= interior(*mask));
    }
    cells
}


/// The mixed difference between two places, each given on the source and
/// on the target.
fn pair(
    source: &Image,
    target: &Image,
    gradient: Gradient,
    s_here: (u32, u32),
    s_there: (u32, u32),
    t_here: (u32, u32),
    t_there: (u32, u32),
) -> (m: i64)
    requires
        source.wf(),
        target.wf(),
        source.contains(s_here.0 as int, s_here.1 as int),
        source.contains(s_there.0 as int, s_there.1 as int),
        target.contains(t_here.0 as int, t_here.1 as int),
        target.contains(t_there.0 as int, t_there.1 as int),
    ensures
        m == mix(
            gradient,
            source.at(s_here.0 as int, s_here.1 as int) - source.at(
                s_there.0 as int,
                s_there.1 as int,
            ),
            target.at(t_here.0 as int, t_here.1 as int) - target.at(
                t_there.0 as int,
                t_there.1 as int,
            ),
        ),
        -SAMPLE_MAX <= m <= SAMPLE_MAX,
{
    let a: i64 = source.get_pixel(s_here.0, s_here.1) as i64 - source.get_pixel(
        s_there.0,
        s_there.1,
    ) as i64;
    let b: i64 = target.get_pixel(t_here.0, t_here.1) as i64 - target.get_pixel(
        t_there.0,
        t_there.1,
    ) as i64;
    mix_grad(gradient, a, b)
}

/// The mixed difference between cell `(r, c)` of a region and its cell
/// `(nr, nc)`.
fn pull_at(
    source: &Image,
    mask: &Image,
    target: &Image,
    on_source: (usize, usize),
    on_target: (usize, usize),
    gradient: Gradient,
    region: Region,
    here: (usize, usize),
    there: (usize, usize),
) -> (m: i64)
    requires
        source.wf(),
        target.wf(),
        region.wf(),
        region.fits(on_source, *source),
        region.fits(on_target, *target),
        here.0 < region.rows(),
        here.1 < region.cols(),
        there.0 < region.rows(),
        there.1 < region.cols(),
    ensures
        m == (Blend {
            source: *source,
            mask: *mask,
            target: *target,
            on_source,
            on_target,
            gradient,
        }).pull(region, here.0 as int, here.1 as int, there.0 as int, there.1 as int),
        -SAMPLE_MAX <= m <= SAMPLE_MAX,
{
    let sx = on_source.0 + region.x0;
    let sy = on_source.1 + region.y0;
    let tx = on_target.0 + region.x0;
    let ty = on_target.1 + region.y0;
    pair(
        source,
        target,
        gradient,
        ((sx + here.1) as u32, (sy + here.0) as u32),
        ((sx + there.1) as u32, (sy + there.0) as u32),
        ((tx + here.1) as u32, (ty + here.0) as u32),
        ((tx + there.1) as u32, (ty + there.0) as u32),
    )
}

/// Whether the cell in row `r` and column `c` of a region is to be found,
/// the target's sample there in fixed point, and the gradient field there.
fn region_cell(
    source: &Image,
    mask: &Image,
    target: &Image,
    on_source: (usize, usize),
    on_target: (usize, usize),
    gradient: Gradient,
    region: Region,
    r: usize,
    c: usize,
) -> (cell: (bool, i64, i64))
    requires
        source.wf(),
        mask.wf(),
        target.wf(),
        region.wf(),
        region.x1 <= mask.spec_width(),
        region.y1 <= mask.spec_height(),
        region.fits(on_source, *source),
        region.fits(on_target, *target),
        r < region.rows(),
        c < region.cols(),
    ensures
        ({
            let blend = Blend {
                source: *source,
                mask: *mask,
                target: *target,
                on_source,
                on_target,
                gradient,
            };
            &&& cell.0 == solved(*mask, region.x0 + c, region.y0 + r)
            &&& cell.1 == target.at(on_target.0 + region.x0 + c, on_target.1 + region.y0 + r) * ONE
            &&& cell.2 == blend.field(region, r as int, c as int)
        }),
        0 <= cell.1 <= SAMPLE_MAX,
        -FIELD_MAX <= cell.2 <= FIELD_MAX,
{
    let ghost blend = Blend {
        source: *source,
        mask: *mask,
        target: *target,
        on_source,
        on_target,
        gradient,
    };
    let rows = region.y1 - region.y0;
    let cols = region.x1 - region.x0;
    let set = is_solved(mask, (region.x0 + c) as u32, (region.y0 + r) as u32);
    let sample = target.get_pixel(
        (on_target.0 + region.x0 + c) as u32,
        (on_target.1 + region.y0 + r) as u32,
    );
    if !set {
        return (false, sample as i64 * ONE, 0);
    }
    let up: i64 = if r > 0 {
        pull_at(source, mask, target, on_source, on_target, gradient, region, (r, c), (r - 1, c))
    } else {
        0
    };
    assert(up == blend.pull(region, r as int, c as int, r - 1, c as int));
    let down: i64 = if r + 1 < rows {
        pull_at(source, mask, target, on_source, on_target, gradient, region, (r, c), (r + 1, c))
    } else {
        0
    };
    assert(down == blend.pull(region, r as int, c as int, r + 1, c as int));
    let left: i64 = if c > 0 {
        pull_at(source, mask, target, on_source, on_target, gradient, region, (r, c), (r, c - 1))
    } else {
        0
    };
    assert(left == blend.pull(region, r as int, c as int, r as int, c - 1));
    let right: i64 = if c + 1 < cols {
        pull_at(source, mask, target, on_source, on_target, gradient, region, (r, c), (r, c + 1))
    } else {
        0
    };
    assert(right == blend.pull(region, r as int, c as int, r as int, c + 1));
    (true, sample as i64 * ONE, up + down + left + right)
}

/// The mask, the starting estimate and the gradient field of a blend on a
/// region, each row by row.
fn region_grids(
    source: &Image,
    mask: &Image,
    target: &Image,
    on_source: (usize, usize),
    on_target: (usize, usize),
    gradient: Gradient,
    region: Region,
) -> (grids: (Vec<bool>, Vec<i64>, Vec<i64>))
    requires
        source.wf(),
        mask.wf(),
        target.wf(),
        region.wf(),
        region.x1 <= mask.spec_width(),
        region.y1 <= mask.spec_height(),
        region.fits(on_source, *source),
        region.fits(on_target, *target),
    ensures
        ({
            let blend = Blend {
                source: *source,
                mask: *mask,
                target: *target,
                on_source,
                on_target,
                gradient,
            };
            &&& grids.0@ == blend.problem(region).mask
            &&& ints(grids.1@) == blend.start(region)
            &&& ints(grids.2@) == blend.problem(region).grad
        }),
        forall|i: int| 0 <= i < grids.1@.len() ==> 0 <= #[trigger] grids.1@[i] <= SAMPLE_MAX,
        forall|i: int|
            0 <= i < grids.2@.len() ==> -FIELD_MAX <= #[trigger] grids.2@[i] <= FIELD_MAX,
{
    let ghost blend = Blend {
        source: *source,
        mask: *mask,
        target: *target,
        on_source,
        on_target,
        gradient,
    };
    let rows = region.y1 - region.y0;
    let cols = region.x1 - region.x0;
    let sx = on_source.0 + region.x0;
    let sy = on_source.1 + region.y0;
    let tx = on_target.0 + region.x0;
    let ty = on_target.1 + region.y0;
    let mut cells: Vec<bool> = Vec::new();
    let mut start: Vec<i64> = Vec::new();
    let mut grad: Vec<i64> = Vec::new();
    let mut r: usize = 0;
    while r < rows
        invariant
            source.wf(),
            mask.wf(),
            target.wf(),
            region.wf(),
            region.x1 <= mask.spec_width(),
            region.y1 <= mask.spec_height(),
            region.fits(on_source, *source),
            region.fits(on_target, *target),
            blend == (Blend {
                source: *source,
                mask: *mask,
                target: *target,
                on_source,
                on_target,
                gradient,
            }),
            rows == region.rows(),
            cols == region.cols(),
            sx == on_source.0 + region.x0,
            sy == on_source.1 + region.y0,
            tx == on_target.0 + region.x0,
            ty == on_target.1 + region.y0,
            r <= rows,
            cells@.len() == r * cols,
            start@.len() == r * cols,
            grad@.len() == r * cols,
            forall|i: int|
                0 <= i < r * cols ==> #[trigger] cells@[i] == solved(
                    *mask,
                    region.x0 + i % (cols as int),
                    region.y0 + i / (cols as int),
                ),
            forall|i: int|
                0 <= i < r * cols ==> #[trigger] start@[i] == target.at(
                    tx + i % (cols as int),
                    ty + i / (cols as int),
                ) * ONE,
            forall|i: int|
                0 <= i < r * cols ==> #[trigger] grad@[i] == blend.field(
                    region,
                    i / (cols as int),
                    i % (cols as int),
                ),
            forall|i: int| 0 <= i < r * cols ==> 0 <= #[trigger] start@[i] <= SAMPLE_MAX,
            forall|i: int| 0 <= i < r * cols ==> -FIELD_MAX <= #[trigger] grad@[i] <= FIELD_MAX,
        decreases rows - r,
    {
        let mut c: usize = 0;
        while c < cols
            invariant
                source.wf(),
                mask.wf(),
                target.wf(),
                region.wf(),
                region.x1 <= mask.spec_width(),
                region.y1 <= mask.spec_height(),
                region.fits(on_source, *source),
                region.fits(on_target, *target),
                blend == (Blend {
                    source: *source,
                    mask: *mask,
                    target: *target,
                    on_source,
                    on_target,
                    gradient,
                }),
                rows == region.rows(),
                cols == region.cols(),
                sx == on_source.0 + region.x0,
                sy == on_source.1 + region.y0,
                tx == on_target.0 + region.x0,
                ty == on_target.1 + region.y0,
                r < rows,
                c <= cols,
                cells@.len() == r * cols + c,
                start@.len() == r * cols + c,
                grad@.len() == r * cols + c,
                forall|i: int|
                    0 <= i < r * cols + c ==> #[trigger] cells@[i] == solved(
                        *mask,
                        region.x0 + i % (cols as int),
                        region.y0 + i / (cols as int),
                    ),
                forall|i: int|
                    0 <= i < r * cols + c ==> #[trigger] start@[i] == target.at(
                        tx + i % (cols as int),
                        ty + i / (cols as int),
                    ) * ONE,
                forall|i: int|
                    0 <= i < r * cols + c ==> #[trigger] grad@[i] == blend.field(
                        region,
                        i / (cols as int),
                        i % (cols as int),
                    ),
                forall|i: int| 0 <= i < r * cols + c ==> 0 <= #[trigger] start@[i] <= SAMPLE_MAX,
                forall|i: int|
                    0 <= i < r * cols + c ==> -FIELD_MAX <= #[trigger] grad@[i] <= FIELD_MAX,
            decreases cols - c,
        {
            proof {
                lemma_flat_index(cols as int, r as int, c as int);
            }
            let cell = region_cell(
                source,
                mask,
                target,
                on_source,
                on_target,
                gradient,
                region,
                r,
                c,
            );
            cells.push(cell.0);
            start.push(cell.1);
            grad.push(cell.2);
            c = c + 1;
        }
        proof {
            assert((r + 1) * cols == r * cols + cols) by (nonlinear_arith);
        }
        r = r + 1;
    }
    proof {
        assert(cells@ =~= blend.problem(region).mask);
        assert(ints(start@) =~= blend.start(region));
        assert(ints(grad@) =~= blend.problem(region).grad);
    }
    (cells, start, grad)
}


/// A blend in progress: the solver for the region that is worked on, and
/// the image that the result is painted on.
pub struct Processor {
    solver: Solver,
    target: Image,
    target_cord: Region,
}

impl Processor {
    /// The solver at work on the region.
    pub closed spec fn solver(&self) -> Solver {
        self.solver
    }

    /// The image that is painted on.
    pub closed spec fn canvas(&self) -> Image {
        self.target
    }

    /// The part of the canvas that is worked on.
    pub closed spec fn region(&self) -> Region {
        self.target_cord
    }

    /// Whether the solver is to find the sample at `(x, y)` of the canvas.
    pub open spec fn solves(&self, x: int, y: int) -> bool {
        let region = self.region();
        region.contains(x, y) && self.solver().problem().mask[offset(
            region.cols() as int,
            x - region.x0,
            y - region.y0,
        )]
    }

    /// The estimate at `(x, y)` of the canvas, inside the region.
    pub open spec fn estimate_at(&self, x: int, y: int) -> int {
        let region = self.region();
        self.solver().estimate()[offset(region.cols() as int, x - region.x0, y - region.y0)]
    }

    /// The region lies on the canvas, the solver works on a grid of the
    /// region's size, and where nothing is to be found the estimate is the
    /// canvas.
    pub open spec fn wf(&self) -> bool {
        let region = self.region();
        &&& self.solver().wf()
        &&& self.canvas().wf()
        &&& region.wf()
        &&& region.x1 <= self.canvas().spec_width()
        &&& region.y1 <= self.canvas().spec_height()
        &&& self.solver().problem().rows == region.rows()
        &&& self.solver().problem().cols == region.cols()
        &&& forall|x: int, y: int|
            region.contains(x, y) && !self.solves(x, y) ==> #[trigger] self.estimate_at(x, y)
                == self.canvas().at(x, y) * ONE
    }

    /// How many sweeps the solver has run.
    pub fn sweeps(&self) -> (n: usize)
        ensures
            n == self.solver().sweeps_done(),
    {
        self.solver.sweeps()
    }

    /// The part of the canvas that is worked on.
    pub fn target_cord(&self) -> (region: Region)
        ensures
            region == self.region(),
    {
        self.target_cord
    }

    /// Prepares the blend of `source` onto `target` where `mask` is light.
    /// The mask's origin lies at `mask_on_source` on the source and at
    /// `mask_on_target` on the target, each given as column and row.
    pub fn reset(
        source: Image,
        mask: Image,
        target: Image,
        mask_on_source: (usize, usize),
        mask_on_target: (usize, usize),
        gradient: Gradient,
    ) -> (r: Result<Processor, Error>)
        requires
            source.wf(),
            mask.wf(),
            target.wf(),
        ensures
            match r {
                Ok(p) => {
                    let blend = Blend {
                        source,
                        mask,
                        target,
                        on_source: mask_on_source,
                        on_target: mask_on_target,
                        gradient,
                    };
                    exists|region: Region|
                        {
                            &&& #[trigger] is_region(mask, region)
                            &&& region.fits(mask_on_source, source)
                            &&& region.fits(mask_on_target, target)
                            &&& p.region() == region.moved(mask_on_target)
                            &&& p.solver().problem() == blend.problem(region)
                            &&& p.solver().estimate() == blend.problem(region).relax(
                                blend.start(region),
                            )
                            &&& p.solver().sweeps_done() == 1
                            &&& p.canvas() == target
                            &&& p.wf()
                        }
                },
                Err(e) => {
                    &&& e == Error::DimensionMismatch
                    &&& exists|region: Region|
                        #[trigger] is_region(mask, region) && !(region.fits(mask_on_source, source)
                            && region.fits(mask_on_target, target))
                },
            },
    {
        let cells = interior_mask(&mask);
        let width = mask.width() as usize;
        let height = mask.height() as usize;
        proof {
            mask.lemma_len_fits();
            assert(height * width == width * height) by (nonlinear_arith);
        }
        let border = get_border(&cells, height, width);
        let region = match border {
            None => Region { x0: 0, y0: 0, x1: 0, y1: 0 },
            Some((x0, y0, x1, y1)) => {
                proof {
                    lemma_border_inside(mask, (x0 as int, y0 as int, x1 as int, y1 as int));
                }
                Region { x0: x0 - 1, y0: y0 - 1, x1: x1 + 2, y1: y1 + 2 }
            },
        };
        assert(is_region(mask, region));
        let fits = region.x1 <= source.width() as usize && mask_on_source.0 <= source.width() as usize
            - region.x1 && region.y1 <= source.height() as usize && mask_on_source.1
            <= source.height() as usize - region.y1 && region.x1 <= target.width() as usize
            && mask_on_target.0 <= target.width() as usize - region.x1 && region.y1
            <= target.height() as usize && mask_on_target.1 <= target.height() as usize - region.y1;
        if !fits {
            return Err(Error::DimensionMismatch);
        }
        let grids = region_grids(
            &source,
            &mask,
            &target,
            mask_on_source,
            mask_on_target,
            gradient,
            region,
        );
        let rows = region.y1 - region.y0;
        let cols = region.x1 - region.x0;
        let ghost blend = Blend {
            source,
            mask,
            target,
            on_source: mask_on_source,
            on_target: mask_on_target,
            gradient,
        };
        proof {
            assert(grids.1@.len() == ints(grids.1@).len());
            assert(grids.2@.len() == ints(grids.2@).len());
        }
        match Solver::reset(rows, cols, grids.0, grids.1, grids.2) {
            Ok(solver) => {
                let p = Processor {
                    solver,
                    target,
                    target_cord: Region {
                        x0: region.x0 + mask_on_target.0,
                        y0: region.y0 + mask_on_target.1,
                        x1: region.x1 + mask_on_target.0,
                        y1: region.y1 + mask_on_target.1,
                    },
                };
                proof {
                    let moved = region.moved(mask_on_target);
                    assert(p.region() == moved);
                    assert forall|x: int, y: int|
                        moved.contains(x, y) && !p.solves(x, y) implies #[trigger] p.estimate_at(
                            x,
                            y,
                        ) == p.canvas().at(x, y) * ONE by {
                        let c = x - moved.x0;
                        let r = y - moved.y0;
                        let i = offset(cols as int, c, r);
                        let problem = blend.problem(region);
                        lemma_flat_index(cols as int, r, c);
                        lemma_offset_in_range(cols as int, rows as int, c, r);
                        assert(rows * cols == cols * rows) by (nonlinear_arith);
                        assert(!problem.mask[i]);
                        assert(problem.relax(blend.start(region))[i] == blend.start(region)[i]);
                        assert(blend.start(region)[i] == target.at(x, y) * ONE);
                    }
                }
                Ok(p)
            },
            Err(_) => Err(Error::DimensionMismatch),
        }
    }

    /// Runs `iteration` sweeps of the solver and paints its estimate on the
    /// canvas. Returns a copy of the canvas and the residual, in fixed point.
    pub fn step(&mut self, iteration: usize) -> (r: (Image, u128))
        requires
            old(self).wf(),
            old(self).solver().sweeps_done() + iteration <= SWEEP_LIMIT,
        ensures
            final(self).wf(),
            final(self).region() == old(self).region(),
            final(self).solver().problem() == old(self).solver().problem(),
            final(self).solver().estimate() == old(self).solver().problem().relax_n(
                old(self).solver().estimate(),
                iteration as nat,
            ),
            final(self).solver().sweeps_done() == old(self).solver().sweeps_done() + iteration,
            final(self).canvas().same_shape(&old(self).canvas()),
            forall|x: int, y: int|
                old(self).canvas().contains(x, y) ==> #[trigger] final(self).canvas().at(x, y) == (
                if old(self).solves(x, y) {
                    to_sample(final(self).estimate_at(x, y))
                } else {
                    old(self).canvas().at(x, y)
                }),
            r.0.wf(),
            r.0@ == final(self).canvas()@,
            r.0.same_shape(&final(self).canvas()),
            r.1 == final(self).solver().problem().residual(final(self).solver().estimate()),
    {
        let ghost problem = self.solver.problem();
        let ghost before = self.solver.estimate();
        let (samples, err) = self.solver.step(iteration);
        let region = self.target_cord;
        proof {
            lemma_relax_n_keeps(problem, before, iteration as nat);
        }
        paint(&mut self.target, region, &samples);
        proof {
            let cols = region.cols() as int;
            let rows = region.rows() as int;
            assert forall|x: int, y: int| old(self).canvas().contains(x, y) implies #[trigger] self.canvas().at(
                x,
                y,
            ) == (if old(self).solves(x, y) {
                to_sample(self.estimate_at(x, y))
            } else {
                old(self).canvas().at(x, y)
            }) by {
                if region.contains(x, y) {
                    let i = offset(cols, x - region.x0, y - region.y0);
                    lemma_offset_in_range(cols, rows, x - region.x0, y - region.y0);
                    assert(rows * cols == cols * rows) by (nonlinear_arith);
                    assert(samples@[i] == to_sample(self.solver.estimate()[i]));
                    if !old(self).solves(x, y) {
                        assert(old(self).estimate_at(x, y) == old(self).canvas().at(x, y) * ONE);
                        assert(self.solver.estimate()[i] == before[i]);
                        lemma_sample_of_whole(old(self).canvas().at(x, y));
                    }
                }
            }
            assert forall|x: int, y: int|
                region.contains(x, y) && !self.solves(x, y) implies #[trigger] self.estimate_at(x, y)
                == self.canvas().at(x, y) * ONE by {
                let i = offset(cols, x - region.x0, y - region.y0);
                lemma_offset_in_range(cols, rows, x - region.x0, y - region.y0);
                assert(rows * cols == cols * rows) by (nonlinear_arith);
                assert(old(self).estimate_at(x, y) == old(self).canvas().at(x, y) * ONE);
                assert(self.solver.estimate()[i] == before[i]);
            }
        }
        (self.target.clone(), err)
    }
}

/// Blends `source` onto `target` where `mask` is light: prepares the blend
/// and runs `iteration` sweeps after the one that the preparation runs.
pub fn blend(
    source: Image,
    mask: Image,
    target: Image,
    mask_on_source: (usize, usize),
    mask_on_target: (usize, usize),
    gradient: Gradient,
    iteration: usize,
) -> (r: Result<Image, Error>)
    requires
        source.wf(),
        mask.wf(),
        target.wf(),
        iteration < SWEEP_LIMIT,
    ensures
        match r {
            Ok(out) => (Blend {
                source,
                mask,
                target,
                on_source: mask_on_source,
                on_target: mask_on_target,
                gradient,
            }).gives((iteration + 1) as nat, out),
            Err(e) => {
                &&& e == Error::DimensionMismatch
                &&& exists|region: Region|
                    #[trigger] is_region(mask, region) && !(region.fits(mask_on_source, source)
                        && region.fits(mask_on_target, target))
            },
        },
{
    let ghost setup = Blend {
        source,
        mask,
        target,
        on_source: mask_on_source,
        on_target: mask_on_target,
        gradient,
    };
    let mut processor = match Processor::reset(
        source,
        mask,
        target,
        mask_on_source,
        mask_on_target,
        gradient,
    ) {
        Ok(processor) => processor,
        Err(e) => {
            return Err(e);
        },
    };
    let ghost first = processor;
    let (out, _) = processor.step(iteration);
    proof {
        let region = choose|region: Region|
            {
                &&& #[trigger] is_region(mask, region)
                &&& region.fits(mask_on_source, source)
                &&& region.fits(mask_on_target, target)
                &&& first.region() == region.moved(mask_on_target)
                &&& first.solver().problem() == setup.problem(region)
                &&& first.solver().estimate() == setup.problem(region).relax(setup.start(region))
                &&& first.solver().sweeps_done() == 1
                &&& first.canvas() == target
                &&& first.wf()
            };
        let problem = setup.problem(region);
        let start = setup.start(region);
        lemma_relax_n_after_one(problem, start, iteration as nat);
        let cols = region.cols() as int;
        let rows = region.rows() as int;
        assert forall|x: int, y: int| out.contains(x, y) implies #[trigger] out.at(x, y)
            == setup.painted(region, (iteration + 1) as nat, x, y) by {
            out.lemma_at_equal(processor.canvas(), x, y);
            let mx = x - mask_on_target.0;
            let my = y - mask_on_target.1;
            if region.contains(mx, my) {
                let i = offset(cols, mx - region.x0, my - region.y0);
                lemma_flat_index(cols, my - region.y0, mx - region.x0);
                lemma_offset_in_range(cols, rows, mx - region.x0, my - region.y0);
                assert(rows * cols == cols * rows) by (nonlinear_arith);
                assert(problem.mask[i] == solved(mask, mx, my));
            }
        }
        assert(setup.gives((iteration + 1) as nat, out));
    }
    Ok(out)
}

/// Sweeping once and then `n` times is sweeping `n + 1` times.
pub proof fn lemma_relax_n_after_one(problem: Problem, estimate: Seq<int>, n: nat)
    ensures
        problem.relax_n(problem.relax(estimate), n) == problem.relax_n(estimate, n + 1),
    decreases n,
{
    if n > 0 {
        lemma_relax_n_after_one(problem, estimate, (n - 1) as nat);
    } else {
        assert(problem.relax_n(estimate, 1) == problem.relax(problem.relax_n(estimate, 0)));
    }
}

/// Paints `samples`, the rows of a region one after the other, on that
/// region of a canvas.
fn paint(canvas: &mut Image, region: Region, samples: &Vec<u8>)
    requires
        old(canvas).wf(),
        region.wf(),
        region.x1 <= old(canvas).spec_width(),
        region.y1 <= old(canvas).spec_height(),
        samples@.len() == region.rows() * region.cols(),
    ensures
        final(canvas).wf(),
        final(canvas).same_shape(old(canvas)),
        forall|x: int, y: int|
            old(canvas).contains(x, y) ==> #[trigger] final(canvas).at(x, y) == (if region.contains(
                x,
                y,
            ) {
                samples@[offset(region.cols() as int, x - region.x0, y - region.y0)]
            } else {
                old(canvas).at(x, y)
            }),
{
    let rows = region.y1 - region.y0;
    let cols = region.x1 - region.x0;
    assert(samples.len() == samples@.len());
    let mut r: usize = 0;
    while r < rows
        invariant
            rows * cols <= usize::MAX,
            canvas.wf(),
            canvas.same_shape(old(canvas)),
            region.wf(),
            region.x1 <= canvas.spec_width(),
            region.y1 <= canvas.spec_height(),
            samples@.len() == rows * cols,
            rows == region.rows(),
            cols == region.cols(),
            r <= rows,
            forall|x: int, y: int|
                old(canvas).contains(x, y) ==> #[trigger] canvas.at(x, y) == (if region.contains(x, y)
                    && y < region.y0 + r {
                    samples@[offset(cols as int, x - region.x0, y - region.y0)]
                } else {
                    old(canvas).at(x, y)
                }),
        decreases rows - r,
    {
        let mut c: usize = 0;
        while c < cols
            invariant
                rows * cols <= usize::MAX,
                canvas.wf(),
                canvas.same_shape(old(canvas)),
                region.wf(),
                region.x1 <= canvas.spec_width(),
                region.y1 <= canvas.spec_height(),
                samples@.len() == rows * cols,
                rows == region.rows(),
                cols == region.cols(),
                r < rows,
                c <= cols,
                forall|x: int, y: int|
                    old(canvas).contains(x, y) ==> #[trigger] canvas.at(x, y) == (if region.contains(
                        x,
                        y,
                    ) && (y < region.y0 + r || (y == region.y0 + r && x < region.x0 + c)) {
                        samples@[offset(cols as int, x - region.x0, y - region.y0)]
                    } else {
                        old(canvas).at(x, y)
                    }),
            decreases cols - c,
        {
            proof {
                lemma_offset_in_range(cols as int, rows as int, c as int, r as int);
                assert(rows * cols == cols * rows) by (nonlinear_arith);
            }
            let value = samples[r * cols + c];
            canvas.put_pixel((region.x0 + c) as u32, (region.y0 + r) as u32, value);
            c = c + 1;
        }
        r = r + 1;
    }
}

/// Sweeps leave alone every cell that the mask does not name, and the
/// number of cells.
pub proof fn lemma_relax_n_keeps(problem: Problem, estimate: Seq<int>, n: nat)
    requires
        estimate.len() == problem.area(),
    ensures
        problem.relax_n(estimate, n).len() == problem.area(),
        forall|i: int|
            0 <= i < problem.area() && !problem.mask[i] ==> #[trigger] problem.relax_n(estimate, n)[i]
                == estimate[i],
    decreases n,
{
    if n > 0 {
        lemma_relax_n_keeps(problem, estimate, (n - 1) as nat);
    }
}

/// A whole number of samples' worth of fixed point is that sample.
pub proof fn lemma_sample_of_whole(v: u8)
    ensures
        to_sample(v * ONE) == v,
{
    assert(v * ONE / (ONE as int) == v) by (nonlinear_arith)
        requires
            ONE == 0x1_0000_0000,
    ;
    assert(v * ONE < SAMPLE_MAX ==> v < 255) by (nonlinear_arith)
        requires
            ONE == 0x1_0000_0000,
            SAMPLE_MAX == 0xff_0000_0000,
    ;
    assert(v * ONE >= SAMPLE_MAX ==> v >= 255) by (nonlinear_arith)
        requires
            ONE == 0x1_0000_0000,
            SAMPLE_MAX == 0xff_0000_0000,
    ;
    assert(v * ONE <= 0 ==> v <= 0) by (nonlinear_arith)
        requires
            ONE == 0x1_0000_0000,
    ;
}

/// Where the mask names no cell, no number of sweeps changes the estimate,
/// and the residual is zero.
pub proof fn lemma_empty_mask_is_fixed(problem: Problem, estimate: Seq<int>, n: nat)
    requires
        estimate.len() == problem.area(),
        problem.mask.len() == problem.area(),
        forall|i: int| 0 <= i < problem.area() ==> !#[trigger] problem.mask[i],
    ensures
        problem.relax_n(estimate, n) == estimate,
        problem.residual(estimate) == 0,
{
    lemma_relax_n_keeps(problem, estimate, n);
    assert(problem.relax_n(estimate, n) =~= estimate);
    lemma_residual_of_unmasked(problem, estimate, problem.area() as int);
}

/// The cells that the mask does not name add nothing to the residual.
proof fn lemma_residual_of_unmasked(problem: Problem, estimate: Seq<int>, upto: int)
    requires
        0 <= upto <= problem.area(),
        forall|i: int| 0 <= i < problem.area() ==> !#[trigger] problem.mask[i],
    ensures
        problem.residual_upto(estimate, upto) == 0,
    decreases upto,
{
    if upto > 0 {
        lemma_residual_of_unmasked(problem, estimate, upto - 1);
    }
}

/// A mask has one smallest box around its set cells and no other.
pub proof fn lemma_border_unique(
    mask: Seq<bool>,
    rows: int,
    cols: int,
    a: (int, int, int, int),
    b: (int, int, int, int),
)
    requires
        is_border(mask, rows, cols, a),
        is_border(mask, rows, cols, b),
    ensures
        a == b,
{
    let ya = choose|y: int| 0 <= y < rows && #[trigger] mask[offset(cols, a.0, y)];
    let yb = choose|y: int| 0 <= y < rows && #[trigger] mask[offset(cols, b.0, y)];
    let yc = choose|y: int| 0 <= y < rows && #[trigger] mask[offset(cols, a.2, y)];
    let yd = choose|y: int| 0 <= y < rows && #[trigger] mask[offset(cols, b.2, y)];
    let xa = choose|x: int| 0 <= x < cols && #[trigger] mask[offset(cols, x, a.1)];
    let xb = choose|x: int| 0 <= x < cols && #[trigger] mask[offset(cols, x, b.1)];
    let xc = choose|x: int| 0 <= x < cols && #[trigger] mask[offset(cols, x, a.3)];
    let xd = choose|x: int| 0 <= x < cols && #[trigger] mask[offset(cols, x, b.3)];
    assert(mask[offset(cols, a.0, ya)] && mask[offset(cols, b.0, yb)]);
    assert(mask[offset(cols, a.2, yc)] && mask[offset(cols, b.2, yd)]);
    assert(mask[offset(cols, xa, a.1)] && mask[offset(cols, xb, b.1)]);
    assert(mask[offset(cols, xc, a.3)] && mask[offset(cols, xd, b.3)]);
}

/// A mask has one region that is worked on and no other.
pub proof fn lemma_region_unique(mask: Image, a: Region, b: Region)
    requires
        is_region(mask, a),
        is_region(mask, b),
    ensures
        a == b,
{
    if any_set(interior(mask), mask.spec_height() as int, mask.spec_width() as int) {
        lemma_border_unique(
            interior(mask),
            mask.spec_height() as int,
            mask.spec_width() as int,
            (a.x0 + 1, a.y0 + 1, a.x1 - 2, a.y1 - 2),
            (b.x0 + 1, b.y0 + 1, b.x1 - 2, b.y1 - 2),
        );
    }
}

/// What a blend does not find it leaves as it was: a sample of the result
/// that lies beyond the mask, on its edge or where it is dark is the
/// target's.
pub proof fn lemma_blend_keeps_the_rest(blend: Blend, sweeps: nat, out: Image, x: int, y: int)
    requires
        blend.gives(sweeps, out),
        out.contains(x, y),
        !solved(blend.mask, x - blend.on_target.0, y - blend.on_target.1),
    ensures
        out.at(x, y) == blend.target.at(x, y),
{
    let region = choose|region: Region|
        {
            &&& #[trigger] is_region(blend.mask, region)
            &&& region.fits(blend.on_source, blend.source)
            &&& region.fits(blend.on_target, blend.target)
            &&& out.wf()
            &&& out.same_shape(&blend.target)
            &&& forall|x: int, y: int|
                out.contains(x, y) ==> #[trigger] out.at(x, y) == blend.painted(region, sweeps, x, y)
        };
    assert(out.at(x, y) == blend.painted(region, sweeps, x, y));
}

/// The region that is worked on lies on the mask.
pub proof fn lemma_region_inside(mask: Image, region: Region)
    requires
        mask.wf(),
        is_region(mask, region),
    ensures
        region.wf(),
        region.x1 <= mask.spec_width(),
        region.y1 <= mask.spec_height(),
{
    if any_set(interior(mask), mask.spec_height() as int, mask.spec_width() as int) {
        lemma_border_inside(mask, (region.x0 + 1, region.y0 + 1, region.x1 - 2, region.y1 - 2));
    }
}

/// The smallest box around the cells to be found keeps clear of the edge of
/// the mask.
proof fn lemma_border_inside(mask: Image, border: (int, int, int, int))
    requires
        mask.wf(),
        is_border(interior(mask), mask.spec_height() as int, mask.spec_width() as int, border),
    ensures
        1 <= border.0,
        1 <= border.1,
        border.2 + 2 <= mask.spec_width(),
        border.3 + 2 <= mask.spec_height(),
{
    let w = mask.spec_width() as int;
    let h = mask.spec_height() as int;
    let cells = interior(mask);
    let ya = choose|y: int| 0 <= y < h && #[trigger] cells[offset(w, border.0, y)];
    lemma_flat_index(w, ya, border.0);
    lemma_offset_in_range(w, h, border.0, ya);
    let yb = choose|y: int| 0 <= y < h && #[trigger] cells[offset(w, border.2, y)];
    lemma_flat_index(w, yb, border.2);
    lemma_offset_in_range(w, h, border.2, yb);
    let xa = choose|x: int| 0 <= x < w && #[trigger] cells[offset(w, x, border.1)];
    lemma_flat_index(w, border.1, xa);
    lemma_offset_in_range(w, h, xa, border.1);
    let xb = choose|x: int| 0 <= x < w && #[trigger] cells[offset(w, x, border.3)];
    lemma_flat_index(w, border.3, xb);
    lemma_offset_in_range(w, h, xb, border.3);
}

} // verus!
