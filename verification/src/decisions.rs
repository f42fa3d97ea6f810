//! The decisions of a node, each as a function of plain values.
use vstd::prelude::*;

use crate::board::Move;
use crate::math;
use crate::node::{TTEntry, TTFlag};
use crate::score::{Score, ScoreScale};
use crate::thread::SearchStackEntry;

verus! {

/// A stored score ends a search with the given window if it is exact or if its bound
/// lies on the far side of the window.
pub open spec fn spec_tt_cutoff(e: TTEntry, alpha: Score, beta: Score) -> bool {
    match e.flag {
        TTFlag::Exact => true,
        TTFlag::Lower => e.score.0 >= beta.0,
        TTFlag::Upper => e.score.0 <= alpha.0,
    }
}

/// Does a stored score answer the window?
pub fn tt_cutoff(e: &TTEntry, alpha: Score, beta: Score) -> (b: bool)
    ensures
        b == spec_tt_cutoff(*e, alpha, beta),
{
    match e.flag {
        TTFlag::Exact => true,
        TTFlag::Lower => e.score.0 >= beta.0,
        TTFlag::Upper => e.score.0 <= alpha.0,
    }
}

/// The corrected evaluation, kept clear of the mate scores.
pub open spec fn spec_static_eval(scale: ScoreScale, raw: Score, corr: int) -> Score {
    scale.spec_clamp_nomate(raw.0 + corr)
}

/// The static evaluation of a node.
pub fn static_eval(scale: &ScoreScale, raw: Score, corr: i16) -> (s: Score)
    requires
        scale.wf(),
    ensures
        s == spec_static_eval(*scale, raw, corr as int),
        -scale.nomate <= s.0 <= scale.nomate,
{
    let sum: i32 = raw.0 as i32 + corr as i32;
    let sum: i16 = if sum > i16::MAX as i32 {
        i16::MAX
    } else if sum < i16::MIN as i32 {
        i16::MIN
    } else {
        sum as i16
    };
    scale.clamp_nomate(sum)
}

/// The evaluation of the same side has risen over its last move that has one; in
/// check there is no telling, and without an earlier one it counts as risen.
pub open spec fn spec_improving(
    stack: Seq<crate::thread::EntryView>,
    ply: u16,
    in_check: bool,
    static_eval: Score,
    scale: ScoreScale,
) -> bool {
    if in_check {
        false
    } else if ply >= 2 && stack[ply - 2].static_eval.0 != -scale.infinite {
        static_eval.0 > stack[ply - 2].static_eval.0
    } else if ply >= 4 && stack[ply - 4].static_eval.0 != -scale.infinite {
        static_eval.0 > stack[ply - 4].static_eval.0
    } else {
        true
    }
}

/// Is the side to move better off than before?
pub fn improving(
    stack: &Vec<SearchStackEntry>,
    ply: u16,
    in_check: bool,
    static_eval: Score,
    scale: &ScoreScale,
) -> (b: bool)
    requires
        scale.wf(),
        ply < stack@.len(),
    ensures
        b == spec_improving(
            stack@.map_values(|e: SearchStackEntry| e@),
            ply,
            in_check,
            static_eval,
            *scale,
        ),
{
    if in_check {
        false
    } else if ply >= 2 && stack[ply as usize - 2].static_eval.0 != -scale.infinite {
        static_eval.0 > stack[ply as usize - 2].static_eval.0
    } else if ply >= 4 && stack[ply as usize - 4].static_eval.0 != -scale.infinite {
        static_eval.0 > stack[ply as usize - 4].static_eval.0
    } else {
        true
    }
}

/// At a low depth the evaluation beats `beta` by a margin of 80 per ply, one ply
/// less where the side to move is improving.
pub open spec fn spec_reverse_futility(depth: int, improving: bool, static_eval: int, beta: int) -> bool {
    depth < 6 && static_eval - 80 * math::max(depth - (if improving { 1int } else { 0 }), 0) >= beta
}

/// Is the node so good that it need not be searched?
pub fn reverse_futility(depth: i16, improving: bool, static_eval: Score, beta: Score) -> (b: bool)
    ensures
        b == spec_reverse_futility(depth as int, improving, static_eval.0 as int, beta.0 as int),
{
    let rfp_depth: i16 = 6;
    let rfp_margin: i32 = 80;
    let plies: i32 = depth as i32 - if improving { 1 } else { 0 };
    let plies: i32 = if plies > 0 { plies } else { 0 };
    depth < rfp_depth && static_eval.0 as i32 - rfp_margin * plies >= beta.0 as i32
}

/// Deep enough, good enough, and the last move was no pass.
pub open spec fn spec_try_null_move(depth: int, static_eval: int, beta: int, has_prev: bool) -> bool {
    depth >= 3 && static_eval >= beta && has_prev
}

/// Is passing worth a try?
pub fn try_null_move(depth: i16, static_eval: Score, beta: Score, has_prev: bool) -> (b: bool)
    ensures
        b == spec_try_null_move(depth as int, static_eval.0 as int, beta.0 as int, has_prev),
{
    depth >= 3 && static_eval.0 >= beta.0 && has_prev
}

/// Depth of the search after a passed move.
pub open spec fn spec_null_depth(depth: int) -> int {
    depth - (3 + depth / 3)
}

/// Depth of the search after a passed move.
pub fn null_depth(depth: i16) -> (d: i16)
    requires
        depth >= 3,
    ensures
        d == spec_null_depth(depth as int),
{
    let nmp_depth: i16 = 3;
    depth - (nmp_depth + depth / 3)
}

/// Depth that is left of a late move after its reduction.
pub open spec fn spec_lmr_depth(depth: int, lmr: int) -> int {
    math::max(depth - lmr, 0)
}

/// Depth that is left of a late move after its reduction.
pub fn lmr_depth(depth: i16, lmr: i16) -> (d: i32)
    ensures
        d == spec_lmr_depth(depth as int, lmr as int),
{
    let d: i32 = depth as i32 - lmr as i32;
    if d > 0 {
        d
    } else {
        0
    }
}

/// As many moves have been seen as the depth allows: four and the square of the
/// depth, half of that where the side to move is not improving.
pub open spec fn spec_late_move(moves_seen: int, lmr_depth: int, improving: bool) -> bool {
    moves_seen * 1024 >= (4096 + 1024 * (lmr_depth * lmr_depth)) / (if improving { 1int } else { 2 })
}

/// Have enough moves been seen?
pub fn late_move(moves_seen: u32, lmr_depth: i32, improving: bool) -> (b: bool)
    requires
        0 <= lmr_depth <= 65535,
    ensures
        b == spec_late_move(moves_seen as int, lmr_depth as int, improving),
{
    assert(0 <= lmr_depth * lmr_depth <= 65535 * 65535) by (nonlinear_arith)
        requires
            0 <= lmr_depth <= 65535,
    ;
    let margin: u64 = 4096 + 1024 * (lmr_depth as u64 * lmr_depth as u64);
    let margin: u64 = if improving { margin } else { margin / 2 };
    moves_seen as u64 * 1024 >= margin
}

/// The evaluation is so far below `alpha` that a quiet move will not lift it there.
pub open spec fn spec_futile(pv: bool, lmr_depth: int, in_check: bool, static_eval: int, alpha: int) -> bool {
    !pv && lmr_depth <= 8 && !in_check && static_eval + (100 + 80 * lmr_depth) <= alpha
}

/// Are quiet moves hopeless here?
pub fn futile(pv: bool, lmr_depth: i32, in_check: bool, static_eval: Score, alpha: Score) -> (b: bool)
    requires
        0 <= lmr_depth <= 65535,
    ensures
        b == spec_futile(pv, lmr_depth as int, in_check, static_eval.0 as int, alpha.0 as int),
{
    let fp_base: i32 = 100;
    let fp_scale: i32 = 80;
    !pv && lmr_depth <= 8 && !in_check && static_eval.0 as i32 + (fp_base + fp_scale * lmr_depth)
        <= alpha.0 as i32
}

/// The tables think too little of the move.
pub open spec fn spec_bad_history(depth: int, lmr_depth: int, hist: int) -> bool {
    depth <= 5 && hist < -2000 * lmr_depth
}

/// Do the tables advise against the move?
pub fn bad_history(depth: i16, lmr_depth: i32, hist: i32) -> (b: bool)
    requires
        0 <= lmr_depth <= 65535,
    ensures
        b == spec_bad_history(depth as int, lmr_depth as int, hist as int),
{
    let hist_scale: i32 = -2000;
    depth <= 5 && hist < hist_scale * lmr_depth
}

/// The stored move may be the only good one: it was searched nearly as deep, and its
/// score is no upper bound.
pub open spec fn spec_try_singular(
    root: bool,
    singular_search: bool,
    depth: int,
    entry: Option<TTEntry>,
    mv: Move,
) -> bool {
    &&& !root
    &&& !singular_search
    &&& depth >= 8
    &&& entry matches Some(e) && e.mv == Some(mv) && e.depth >= depth - 3 && e.flag != TTFlag::Upper
}

/// Is the move to be tested for being the only good one?
pub fn try_singular(
    root: bool,
    singular_search: bool,
    depth: i16,
    entry: Option<TTEntry>,
    mv: Move,
) -> (b: bool)
    ensures
        b == spec_try_singular(root, singular_search, depth as int, entry, mv),
{
    if root || singular_search || depth < 8 {
        return false;
    }
    match entry {
        Some(e) => match e.mv {
            Some(tt_mv) => tt_mv == mv && e.depth as i16 >= depth - 3 && e.flag != TTFlag::Upper,
            None => false,
        },
        None => false,
    }
}

/// The bound below which every other move has to stay.
pub open spec fn spec_singular_beta(scale: ScoreScale, tt_score: int, depth: int) -> int {
    math::max(tt_score - 2 * depth, -scale.max_mate + 1)
}

/// The bound below which every other move has to stay.
pub fn singular_beta(scale: &ScoreScale, tt_score: Score, depth: i16) -> (s: Score)
    requires
        scale.wf(),
        scale.holds(tt_score),
        depth >= 0,
    ensures
        s.0 == spec_singular_beta(*scale, tt_score.0 as int, depth as int),
        -scale.infinite < s.0 <= scale.infinite,
{
    let lowered: i32 = tt_score.0 as i32 - depth as i32 * 32 / 16;
    let floor: i32 = -(scale.max_mate as i32) + 1;
    Score((if lowered > floor { lowered } else { floor }) as i16)
}

/// One ply for the only good move, two if nothing else comes near `beta` off the
/// principal variation; one ply less where the stored score already beats `beta`.
pub open spec fn spec_extension(pv: bool, score: int, s_beta: int, tt_score: int, beta: int) -> int {
    if score < s_beta {
        1 + (if !pv && score + 20 < beta { 1int } else { 0 })
    } else if tt_score >= beta {
        -1
    } else {
        0
    }
}

/// By how much the tested move is extended.
pub fn extension(pv: bool, score: Score, s_beta: Score, tt_score: Score, beta: Score) -> (e: i16)
    ensures
        e == spec_extension(pv, score.0 as int, s_beta.0 as int, tt_score.0 as int, beta.0 as int),
        -1 <= e <= 2,
{
    let dext_margin: i32 = 20;
    if score.0 < s_beta.0 {
        if !pv && score.0 as i32 + dext_margin < beta.0 as i32 {
            2
        } else {
            1
        }
    } else if tt_score.0 >= beta.0 {
        -1
    } else {
        0
    }
}

/// Depth of the first look at a later move: reduced, but no deeper than in full and
/// no shallower than one ply if that can be had; one ply less in a cut node.
pub open spec fn spec_scout_depth(new_depth: int, lmr: int, cutnode: bool) -> int {
    math::min(math::max(new_depth - lmr, 1), new_depth) - (if cutnode { 1int } else { 0 })
}

/// Depth of the first look at a later move.
pub fn scout_depth(new_depth: i16, lmr: i16, cutnode: bool) -> (d: i16)
    requires
        i16::MIN < new_depth,
    ensures
        d == spec_scout_depth(new_depth as int, lmr as int, cutnode),
{
    let reduced: i32 = new_depth as i32 - lmr as i32;
    let reduced: i32 = if reduced > 1 { reduced } else { 1 };
    let reduced: i32 = if reduced < new_depth as i32 { reduced } else { new_depth as i32 };
    (reduced - if cutnode { 1 } else { 0 }) as i16
}

/// The search has told something of the static evaluation: out of check and with no
/// move left out, the best move is not a capture or the like, and a score that is
/// only a bound lies on the far side of the evaluation.
pub open spec fn spec_corrects(
    in_check: bool,
    singular_search: bool,
    best_move: Option<Move>,
    flag: TTFlag,
    best_score: int,
    static_eval: int,
) -> bool {
    &&& !in_check
    &&& !singular_search
    &&& best_move matches Some(mv) ==> mv.quiet
    &&& match flag {
        TTFlag::Lower => best_score > static_eval,
        TTFlag::Upper => best_score < static_eval,
        TTFlag::Exact => true,
    }
}

/// Is the result to be fed into the correction tables?
pub fn corrects(
    in_check: bool,
    singular_search: bool,
    best_move: Option<Move>,
    flag: TTFlag,
    best_score: Score,
    static_eval: Score,
) -> (b: bool)
    ensures
        b == spec_corrects(
            in_check,
            singular_search,
            best_move,
            flag,
            best_score.0 as int,
            static_eval.0 as int,
        ),
{
    let quiet: bool = match best_move {
        Some(mv) => mv.quiet,
        None => true,
    };
    !in_check && !singular_search && quiet && match flag {
        TTFlag::Lower => best_score.0 > static_eval.0,
        TTFlag::Upper => best_score.0 < static_eval.0,
        TTFlag::Exact => true,
    }
}

} // verus!
