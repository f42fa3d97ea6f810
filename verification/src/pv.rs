//! Principal variations: lines of moves in vectors of fixed capacity.
use arrayvec::ArrayVec;
use vstd::prelude::*;

use crate::board::Move;
use crate::limits::PV_CAPACITY;

verus! {

/// `arrayvec::ArrayVec`, a vector that holds at most `CAP` items.
#[verifier::external_type_specification]
#[verifier::external_body]
#[verifier::reject_recursive_types(T)]
pub struct ExArrayVec<T, const CAP: usize>(ArrayVec<T, CAP>);

/// A line of moves from some node of the tree.
pub type PrincipalVariation = ArrayVec<Move, PV_CAPACITY>;

/// The moves that an `ArrayVec` of moves holds, in order.
pub uninterp spec fn line(pv: ArrayVec<Move, PV_CAPACITY>) -> Seq<Move>;

/// `ArrayVec::new`: an empty vector.
#[verifier::external_body]
pub(crate) fn new_line() -> (pv: PrincipalVariation)
    ensures
        line(pv) == Seq::<Move>::empty(),
{
    ArrayVec::new()
}

/// `ArrayVec::clear`: nothing is left.
#[verifier::external_body]
pub(crate) fn clear_line(pv: &mut PrincipalVariation)
    ensures
        line(*final(pv)) == Seq::<Move>::empty(),
{
    pv.clear()
}

/// `ArrayVec::from_iter`, here from an array of one move: exactly that move.
#[verifier::external_body]
pub(crate) fn line_of(mv: Move) -> (pv: PrincipalVariation)
    ensures
        line(pv) == seq![mv],
{
    ArrayVec::from_iter([mv])
}

/// `ArrayVec::extend`: appends the moves of another line in order. It panics where
/// they do not all fit.
#[verifier::external_body]
pub(crate) fn extend_line(pv: &mut PrincipalVariation, tail: &PrincipalVariation)
    requires
        line(*old(pv)).len() + line(*tail).len() <= PV_CAPACITY,
    ensures
        line(*final(pv)) == line(*old(pv)) + line(*tail),
{
    pv.extend(tail.iter().copied())
}

/// `ArrayVec::clone`: a vector of the same moves.
#[verifier::external_body]
pub(crate) fn clone_line(pv: &PrincipalVariation) -> (copy: PrincipalVariation)
    ensures
        line(copy) == line(*pv),
{
    pv.clone()
}

/// `ArrayVec::as_slice`: the moves that the vector holds.
#[verifier::external_body]
pub(crate) fn line_slice(pv: &PrincipalVariation) -> (moves: &[Move])
    ensures
        moves@ == line(*pv),
{
    pv.as_slice()
}

} // verus!
