//! Scores and the range they live in.
use vstd::prelude::*;

use crate::limits::MAX_PLY;
use crate::math;

verus! {

/// A score from the point of view of the side to move.
#[derive(Clone, Copy, Debug, PartialEq, Eq, Structural)]
pub struct Score(pub i16);

/// The marks on the scale of scores.
///
/// Scores run from `-infinite` to `infinite`. A mate that is already on the board is
/// worth `max_mate`, and one ply less for each ply to get there. Scores that announce
/// no mate lie within `[-nomate, nomate]`.
#[derive(Clone, Copy, Debug, PartialEq, Eq, Structural)]
pub struct ScoreScale {
    pub infinite: i16,
    pub max_mate: i16,
    pub nomate: i16,
}

impl ScoreScale {
    /// The marks are in order, with room for a mate at every ply.
    pub open spec fn wf(self) -> bool {
        0 <= self.nomate && self.nomate + MAX_PLY + 1 < self.max_mate <= self.infinite
    }

    /// Tests [`ScoreScale::wf`].
    pub fn is_valid(&self) -> (b: bool)
        ensures
            b == self.wf(),
    {
        0 <= self.nomate && self.nomate as i32 + MAX_PLY as i32 + 1 < self.max_mate as i32 && self.max_mate
            <= self.infinite
    }

    /// The score lies on the scale.
    pub open spec fn holds(self, s: Score) -> bool {
        -self.infinite <= s.0 <= self.infinite
    }

    /// Tests [`ScoreScale::holds`].
    pub fn has(&self, s: Score) -> (b: bool)
        requires
            self.wf(),
        ensures
            b == self.holds(s),
    {
        -self.infinite <= s.0 && s.0 <= self.infinite
    }

    pub open spec fn spec_clamp_nomate(self, x: int) -> Score {
        Score(math::clamp(x, -self.nomate as int, self.nomate as int) as i16)
    }

    /// The nearest score that announces no mate.
    pub fn clamp_nomate(&self, x: i16) -> (s: Score)
        requires
            self.wf(),
        ensures
            s == self.spec_clamp_nomate(x as int),
    {
        if x < -self.nomate {
            Score(-self.nomate)
        } else if x > self.nomate {
            Score(self.nomate)
        } else {
            Score(x)
        }
    }

    pub open spec fn spec_is_loss(self, s: Score) -> bool {
        s.0 < -self.nomate
    }

    /// Does the score announce that the side to move gets mated?
    pub fn is_loss(&self, s: Score) -> (b: bool)
        requires
            self.wf(),
        ensures
            b == self.spec_is_loss(s),
    {
        s.0 < -self.nomate
    }

    pub open spec fn spec_new_mated(self, ply: int) -> Score {
        Score((-self.max_mate + ply) as i16)
    }

    /// The score of being mated at a ply.
    pub fn new_mated(&self, ply: u16) -> (s: Score)
        requires
            self.wf(),
            ply <= MAX_PLY + 1,
        ensures
            s == self.spec_new_mated(ply as int),
            self.holds(s),
            self.spec_is_loss(s),
    {
        Score(-self.max_mate + ply as i16)
    }

    pub open spec fn spec_saturating_add(self, s: Score, x: int) -> Score {
        Score(math::clamp(s.0 + x, -self.infinite as int, self.infinite as int) as i16)
    }

    /// The sum, kept on the scale.
    pub fn saturating_add(&self, s: Score, x: i16) -> (r: Score)
        requires
            self.wf(),
        ensures
            r == self.spec_saturating_add(s, x as int),
            self.holds(r),
    {
        let sum: i32 = s.0 as i32 + x as i32;
        if sum < -(self.infinite as i32) {
            Score(-self.infinite)
        } else if sum > self.infinite as i32 {
            Score(self.infinite)
        } else {
            Score(sum as i16)
        }
    }
}

/// The same score seen from the other side.
pub open spec fn flip(s: Score) -> Score {
    Score((-s.0) as i16)
}

/// Shifts a score; the sum is taken to fit.
pub open spec fn shift(s: Score, x: int) -> Score {
    Score((s.0 + x) as i16)
}

/// Computes [`flip`].
pub fn negate(s: Score) -> (r: Score)
    requires
        i16::MIN < s.0,
    ensures
        r == flip(s),
{
    Score(-s.0)
}

} // verus!
