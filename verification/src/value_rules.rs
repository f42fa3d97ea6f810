//! The rules of plain values: scores, squares, lines and the decisions of a node.
use vstd::prelude::*;

use crate::board::{Board, Color, Move, Piece, Position};
use crate::decisions;
use crate::node::{NodeKind, NodeType, NonPV, Params, Root, TTEntry, TTFlag, PV};
use crate::run::{Frame, FrameView, Run};
use crate::score::{Score, ScoreScale};
use crate::search;
use crate::search::SearchNode;
use crate::thread::{EntryView, ThreadCtx, ThreadView};

verus! {

/// A score seen from the other side has the other sign; seen twice it is what it was. A shifted
/// score is the sum, if that is one.
pub proof fn law_scores_turn_around(a: Score, b: Score, x: int)
    requires
        a.0 > i16::MIN,
        b.0 > i16::MIN,
    ensures
        crate::score::flip(a).0 == -a.0,
        crate::score::flip(crate::score::flip(a)) == a,
        a.0 < b.0 <==> crate::score::flip(b).0 < crate::score::flip(a).0,
        i16::MIN <= a.0 + x <= i16::MAX ==> crate::score::shift(a, x).0 == a.0 + x,
{
}

/// A score that announces no mate is its own nearest such score, and any other goes to the
/// mark on its side. Losses are the scores below the lower mark. Being mated is a loss, and
/// one point better for each ply that it takes.
pub proof fn law_marks_of_the_scale(scale: ScoreScale, x: int, s: Score, ply: int)
    requires
        scale.wf(),
        0 <= ply <= 256,
    ensures
        -scale.nomate <= x <= scale.nomate ==> scale.spec_clamp_nomate(x).0 == x,
        x > scale.nomate ==> scale.spec_clamp_nomate(x).0 == scale.nomate,
        x < -scale.nomate ==> scale.spec_clamp_nomate(x).0 == -scale.nomate,
        scale.spec_is_loss(s) <==> s.0 + scale.nomate < 0,
        scale.spec_new_mated(ply).0 + scale.max_mate == ply,
        scale.spec_is_loss(scale.spec_new_mated(ply)),
        scale.holds(s) <==> s.0 <= scale.infinite && -s.0 <= scale.infinite,
{
}

/// A sum that lies on the scale is exact, and any other is the end of the scale on its side.
pub proof fn law_sums_stay_on_the_scale(scale: ScoreScale, s: Score, x: int)
    requires
        scale.wf(),
    ensures
        ({
            let sum = s.0 + x;
            let r = scale.spec_saturating_add(s, x).0;
            &&& -scale.infinite <= sum <= scale.infinite ==> r == sum
            &&& sum > scale.infinite ==> r == scale.infinite
            &&& sum < -scale.infinite ==> r == -scale.infinite
        }),
{
}

/// A scale is valid exactly if its marks are in order and leave room for a mate at each ply.
/// Parameters are valid exactly if both ends of the window lie on the scale with room on the
/// other side, ply and depth keep to their limits, and a root lies on the principal variation.
pub proof fn law_validity(scale: ScoreScale, p: Params, mv: Move, pos: Position)
    ensures
        scale.wf() <==> scale.nomate >= 0 && scale.max_mate - scale.nomate > 256 && scale.infinite >= scale.max_mate,
        p.wf(scale) <==> -scale.infinite <= p.alpha.0 && p.alpha.0 < scale.infinite && -scale.infinite < p.beta.0
            && p.beta.0 <= scale.infinite && p.ply <= 256 && p.depth - p.ply <= 32000 && (p.kind.pv || !p.kind.root),
        mv.wf() <==> mv.from < 64 && mv.to < 64,
        pos.wf() <==> (pos.prev is None || pos.prev.unwrap().1.from < 64 && pos.prev.unwrap().1.to < 64),
{
}

/// Sides and kinds of pieces have rows of their own, from the pawn up to the king. A square
/// holds what the board says, a square is attacked if its bit is set, and a move can be tried if
/// it lies on the board and starts from a piece.
pub proof fn law_squares_and_pieces(board: Board, mv: Move, a: Piece, b: Piece, c: Color, d: Color)
    ensures
        0 <= a.slot() < 6,
        a.slot() == b.slot() <==> a == b,
        0 <= c.slot() < 2,
        c.slot() == d.slot() <==> c == d,
        Color::White.slot() == 0,
        Piece::Pawn.slot() == 0,
        Piece::Knight.slot() == 1,
        Piece::Bishop.slot() == 2,
        Piece::Rook.slot() == 3,
        Piece::Queen.slot() == 4,
        Piece::King.slot() == 5,
        board.spec_piece_on(mv.from) == board.pieces@[mv.from as int],
        board.spec_is_attacked(mv.from) <==> (board.attacked >> (mv.from as u64)) & 1 == 1,
        search::move_ok(board, mv) <==> mv.from < 64 && mv.to < 64 && board.pieces@[mv.from as int] is Some,
{
}

/// The three kinds of node, and what the first child of each is: never the root, and on the
/// principal variation exactly if the node is.
pub proof fn law_kinds_of_node(kind: NodeKind)
    ensures
        Root::spec_kind() == (NodeKind { root: true, pv: true }),
        PV::spec_kind() == (NodeKind { root: false, pv: true }),
        NonPV::spec_kind() == (NodeKind { root: false, pv: false }),
        !kind.spec_next().root,
        kind.spec_next().pv == kind.pv,
{
}

/// A stored score answers a window if it is exact, if it is a lower bound that is not below
/// its upper end, or if it is an upper bound that is not above its lower end.
pub proof fn law_table_cutoffs(e: TTEntry, alpha: Score, beta: Score)
    ensures
        decisions::spec_tt_cutoff(e, alpha, beta) <==> e.flag == TTFlag::Exact || e.flag == TTFlag::Lower && beta.0
            <= e.score.0 || e.flag == TTFlag::Upper && alpha.0 >= e.score.0,
{
}

/// The static evaluation is the sum of the raw one and the correction, or the mark that the
/// sum lies beyond.
pub proof fn law_static_evaluation(scale: ScoreScale, raw: Score, corr: int)
    requires
        scale.wf(),
    ensures
        ({
            let e = decisions::spec_static_eval(scale, raw, corr).0;
            let sum = raw.0 + corr;
            &&& -scale.nomate <= sum <= scale.nomate ==> e == sum
            &&& sum > scale.nomate ==> e == scale.nomate
            &&& sum < -scale.nomate ==> e == -scale.nomate
        }),
{
}

/// A side improves never in check; over its evaluation two plies before where there is one,
/// else over that four plies before, else always.
pub proof fn law_improvement(stack: Seq<EntryView>, ply: u16, in_check: bool, eval: Score, scale: ScoreScale)
    ensures
        ({
            let known = |back: int| ply >= back && stack[ply - back].static_eval.0 != -scale.infinite;
            let better = decisions::spec_improving(stack, ply, in_check, eval, scale);
            &&& in_check ==> !better
            &&& !in_check && known(2) ==> (better <==> eval.0 > stack[ply - 2].static_eval.0)
            &&& !in_check && !known(2) && known(4) ==> (better <==> eval.0 > stack[ply - 4].static_eval.0)
            &&& !in_check && !known(2) && !known(4) ==> better
        }),
{
}

/// What prunes a node before its moves: below six plies an evaluation 80 a ply above `beta`,
/// with one ply forgiven to a side that improves; or, from three plies on and after a move, an
/// evaluation that a pass may show to hold. A better evaluation never prunes less.
pub proof fn law_node_pruning(depth: int, improving: bool, eval: int, more: int, beta: int, has_prev: bool)
    requires
        more >= eval,
    ensures
        decisions::spec_reverse_futility(depth, false, eval, beta) <==> depth < 6 && eval >= beta && eval - 80 * depth
            >= beta,
        decisions::spec_reverse_futility(depth, true, eval, beta) <==> depth < 6 && eval >= beta && eval - 80 * (depth
            - 1) >= beta,
        decisions::spec_try_null_move(depth, eval, beta, has_prev) <==> depth > 2 && beta <= eval && has_prev,
        depth >= 3 ==> decisions::spec_null_depth(depth) + depth / 3 == depth - 3,
        decisions::spec_reverse_futility(depth, improving, eval, beta) ==> decisions::spec_reverse_futility(
            depth,
            improving,
            more,
            beta,
        ),
{
}

/// What prunes quiet moves, by the plies that are left of the move.
pub proof fn law_quiet_pruning(
    depth: int,
    lmr: int,
    seen: int,
    improving: bool,
    pv: bool,
    in_check: bool,
    eval: int,
    alpha: int,
    hist: int,
)
    ensures
        ({
            let left = decisions::spec_lmr_depth(depth, lmr);
            &&& left >= 0 && left >= depth - lmr && (left == 0 || left == depth - lmr)
            &&& improving ==> (decisions::spec_late_move(seen, left, improving) <==> seen >= 4 + left * left)
            &&& !improving ==> (decisions::spec_late_move(seen, left, improving) <==> 2 * seen >= 4 + left * left)
            &&& decisions::spec_futile(pv, left, in_check, eval, alpha) <==> !pv && !in_check && left < 9 && alpha - eval
                >= 100 + 80 * left
            &&& decisions::spec_bad_history(depth, left, hist) <==> depth < 6 && hist + 2000 * left < 0
        }),
{
}

/// Which move is tested for being the only good one, against which bound, and by how much it
/// is then extended.
pub proof fn law_singular_moves(
    root: bool,
    excluding: bool,
    depth: int,
    entry: Option<TTEntry>,
    mv: Move,
    scale: ScoreScale,
    pv: bool,
    others: int,
    stored: int,
    beta: int,
)
    ensures
        decisions::spec_try_singular(root, excluding, depth, entry, mv) <==> !root && !excluding && depth > 7 && (
        entry matches Some(e) && e.mv == Some(mv) && e.depth + 3 >= depth && (e.flag == TTFlag::Exact || e.flag
            == TTFlag::Lower)),
        ({
            let bound = decisions::spec_singular_beta(scale, stored, depth);
            let by = decisions::spec_extension(pv, others, bound, stored, beta);
            &&& bound >= stored - 2 * depth && bound > -scale.max_mate && (bound == stored - 2 * depth || bound == 1
                - scale.max_mate)
            &&& others < bound && !pv && beta - others > 20 ==> by == 2
            &&& others < bound && (pv || beta - others <= 20) ==> by == 1
            &&& others >= bound && stored >= beta ==> by == -1
            &&& others >= bound && stored < beta ==> by == 0
        }),
{
}

/// The depth of the first look at a later move: never more than the full one, at least one ply
/// if that has one, and otherwise the full one less the reduction; one less in a cut node.
pub proof fn law_scout_depth(full: int, lmr: int, cutnode: bool)
    ensures
        ({
            let look = decisions::spec_scout_depth(full, lmr, cutnode) + if cutnode {
                1int
            } else {
                0
            };
            &&& full <= 1 ==> look == full
            &&& full > 1 && lmr <= 0 ==> look == full
            &&& full > 1 && 0 < lmr < full ==> look == full - lmr
            &&& full > 1 && lmr >= full ==> look == 1
        }),
{
}

/// When a score tells something of the evaluation.
pub proof fn law_telling_scores(
    in_check: bool,
    excluding: bool,
    best: Option<Move>,
    flag: TTFlag,
    score: int,
    eval: int,
)
    ensures
        decisions::spec_corrects(in_check, excluding, best, flag, score, eval) <==> {
            &&& !in_check && !excluding
            &&& best is None || best.unwrap().quiet
            &&& flag == TTFlag::Lower ==> score > eval
            &&& flag == TTFlag::Upper ==> score < eval
        },
{
}

/// The line of a ply becomes a move with the line of the next ply behind it, and nothing else
/// on the stack or in the thread changes.
pub proof fn law_line_of_a_ply(t: ThreadView, ply: u16, mv: Move)
    requires
        t.wf(),
        ply < 255,
    ensures
        ({
            let then = t.with_line(ply, mv);
            let line = then.stack[ply as int].pv;
            &&& line.len() == t.stack[ply + 1].pv.len() + 1
            &&& line[0] == mv
            &&& line.skip(1) == t.stack[ply + 1].pv
            &&& then.stack[ply as int] == (EntryView { pv: line, ..t.stack[ply as int] })
            &&& then.stack.len() == t.stack.len()
            &&& forall|i: int| 0 <= i < t.stack.len() && i != ply ==> #[trigger] then.stack[i] == t.stack[i]
            &&& then == (ThreadView { stack: then.stack, ..t })
        }),
{
    let line = t.with_line(ply, mv).stack[ply as int].pv;
    assert(line.skip(1) =~= t.stack[ply + 1].pv);
}

/// A stack that no node has written to: no line, no mark and no evaluation at any ply.
pub proof fn law_blank_stack(scale: ScoreScale, i: int)
    requires
        scale.wf(),
        0 <= i < 256,
    ensures
        crate::thread::blank_stack(scale).len() == 256,
        crate::thread::blank_stack(scale)[i].pv.len() == 0,
        crate::thread::blank_stack(scale)[i].singular is None,
        crate::thread::blank_stack(scale)[i].static_eval.0 == -scale.infinite,
        EntryView::blank(scale) == crate::thread::blank_stack(scale)[i],
{
}

/// What the contracts say of a thread, a node and a run, they say of its own fields: a view has
/// the same numbers, and the same moves and nodes in the same order.
pub proof fn law_views_show_the_fields(thread: ThreadCtx, node: SearchNode, run: Run, i: int)
    ensures
        thread@.id == thread.id,
        thread@.chess960 == thread.chess960,
        thread@.abort_now == thread.abort_now,
        thread@.nodes == thread.nodes,
        thread@.root_moves == thread.root_moves@,
        thread@.sel_depth == thread.sel_depth,
        thread@.root_pv == crate::pv::line(thread.root_pv),
        thread@.tables == thread.history@,
        thread@.scale == thread.scale,
        thread@.stack.len() == thread.search_stack@.len(),
        0 <= i < thread.search_stack@.len() ==> {
            let entry = thread.search_stack@[i];
            &&& thread@.stack[i].pv == crate::pv::line(entry.pv)
            &&& thread@.stack[i].static_eval == entry.static_eval
            &&& thread@.stack[i].singular == entry.singular
        },
        node@.core == node.core,
        node@.quiets == crate::move_list::listed(node.quiets),
        node@.tactics == crate::move_list::listed(node.tactics),
        run@.pending == run.pending,
        run@.frames.len() == run.frames@.len(),
        0 <= i < run.frames@.len() ==> match run.frames@[i] {
            Frame::Main(n) => run@.frames[i] == FrameView::Main(n@),
            Frame::Quiet(n) => run@.frames[i] == FrameView::Quiet(n),
        },
{
}

} // verus!
