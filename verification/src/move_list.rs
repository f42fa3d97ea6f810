//! Lists of the moves that a node has tried.
use smallvec::SmallVec;
use vstd::prelude::*;

use crate::board::Move;

verus! {

/// A list of moves whose first few stand in the list itself: a `smallvec::SmallVec`.
#[verifier::external_body]
pub struct MoveList {
    moves: SmallVec<[Move; 64]>,
}

/// The moves of a list, in order.
pub uninterp spec fn listed(list: MoveList) -> Seq<Move>;

impl MoveList {
    /// `SmallVec::new`: an empty list.
    #[verifier::external_body]
    pub(crate) fn new() -> (list: MoveList)
        ensures
            listed(list) == Seq::<Move>::empty(),
    {
        MoveList { moves: SmallVec::new() }
    }

    /// `SmallVec::push`: the move comes last, and the others stay.
    #[verifier::external_body]
    pub(crate) fn push(&mut self, mv: Move)
        ensures
            listed(*final(self)) == listed(*old(self)).push(mv),
    {
        self.moves.push(mv)
    }

    /// `SmallVec::as_slice`: the moves that the list holds.
    #[verifier::external_body]
    pub(crate) fn as_slice(&self) -> (moves: &[Move])
        ensures
            moves@ == listed(*self),
    {
        self.moves.as_slice()
    }
}

} // verus!
