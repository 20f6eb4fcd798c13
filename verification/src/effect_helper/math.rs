//! Distributions over closed intervals.

use vstd::prelude::*;

verus! {

/// Real numbers of a configuration are held as whole numbers of millionths.
pub const MILLION: i64 = 1_000_000;

/// A distribution over a closed interval, its ends in millionths.
#[derive(Clone, Copy, Debug, PartialEq, Eq, Structural)]
pub enum Random {
    /// Every number of the interval is as likely as any other.
    Uniform { min_val: i64, max_val: i64 },
    /// A Gaussian around the middle of the interval, whose standard
    /// deviation is a sixth of the interval's length, cut off at its ends.
    Gaussian { min_val: i64, max_val: i64 },
}

impl Random {
    /// The lower end of the interval.
    pub open spec fn spec_min(&self) -> i64 {
        match *self {
            Random::Uniform { min_val, .. } => min_val,
            Random::Gaussian { min_val, .. } => min_val,
        }
    }

    /// The upper end of the interval.
    pub open spec fn spec_max(&self) -> i64 {
        match *self {
            Random::Uniform { max_val, .. } => max_val,
            Random::Gaussian { max_val, .. } => max_val,
        }
    }

    /// The ends of the interval are in order.
    pub open spec fn wf(&self) -> bool {
        self.spec_min() <= self.spec_max()
    }

    /// `draw` where it lies in the interval, else the nearer end.
    pub open spec fn cut(&self, draw: i64) -> i64 {
        if draw < self.spec_min() {
            self.spec_min()
        } else if draw > self.spec_max() {
            self.spec_max()
        } else {
            draw
        }
    }

    /// The uniform distribution over the interval from `min_val` to `max_val`.
    pub fn new_uniform(min_val: i64, max_val: i64) -> (r: Random)
        requires
            min_val <= max_val,
        ensures
            r == (Random::Uniform { min_val, max_val }),
            r.wf(),
    {
        Random::Uniform { min_val, max_val }
    }

    /// The cut-off Gaussian over the interval from `min_val` to `max_val`.
    pub fn new_gaussian(min_val: i64, max_val: i64) -> (r: Random)
        requires
            min_val <= max_val,
        ensures
            r == (Random::Gaussian { min_val, max_val }),
            r.wf(),
    {
        Random::Gaussian { min_val, max_val }
    }

    #[verifier::when_used_as_spec(spec_min)]
    pub fn min_val(&self) -> (m: i64)
        ensures
            m == self.spec_min(),
    {
        match self {
            Random::Uniform { min_val, .. } => *min_val,
            Random::Gaussian { min_val, .. } => *min_val,
        }
    }

    #[verifier::when_used_as_spec(spec_max)]
    pub fn max_val(&self) -> (m: i64)
        ensures
            m == self.spec_max(),
    {
        match self {
            Random::Uniform { max_val, .. } => *max_val,
            Random::Gaussian { max_val, .. } => *max_val,
        }
    }

    /// The middle of the interval, rounded down: the Gaussian's mean.
    pub fn mean(&self) -> (m: i64)
        ensures
            m == (self.spec_min() + self.spec_max()) / 2,
    {
        let sum: i128 = self.min_val() as i128 + self.max_val() as i128;
        let half: i128 = if sum >= 0 {
            sum / 2
        } else {
            -1 - (-1 - sum) / 2
        };
        half as i64
    }

    /// A sixth of the interval's length, rounded down: the Gaussian's
    /// standard deviation.
    pub fn sigma(&self) -> (s: u64)
        requires
            self.wf(),
        ensures
            s == (self.spec_max() - self.spec_min()) / 6,
    {
        let length: i128 = self.max_val() as i128 - self.min_val() as i128;
        (length / 6) as u64
    }

    /// Makes a sample of a draw from the distribution before it is cut
    /// off: the draw itself where it lies in the interval, else the nearer
    /// end of the interval.
    pub fn sample(&self, draw: i64) -> (v: i64)
        ensures
            v == self.cut(draw),
            self.wf() ==> self.spec_min() <= v <= self.spec_max(),
    {
        let low = self.min_val();
        let high = self.max_val();
        if draw < low {
            low
        } else if draw > high {
            high
        } else {
            draw
        }
    }
}

} // verus!
