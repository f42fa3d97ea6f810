//! What holds of every step of the quiescence search.
use vstd::prelude::*;

use crate::board::{Move, Position};
use crate::limits::MAX_PLY;
use crate::node::{Outcome, Params, Query, Reply};
use crate::qsearch;
use crate::qsearch::{QNode, QPhase, QStep};
use crate::score::{Score, ScoreScale};
use crate::search;
use crate::thread::ThreadView;

verus! {

/// What a step leaves behind is sound: the thread is well-formed, a waiting node is
/// well-formed, a child gets parameters and a position that it can be started with,
/// and a score lies on the scale.
pub open spec fn sound(step: QStep, scale: ScoreScale) -> bool {
    &&& step.thread.wf()
    &&& step.thread.scale == scale
    &&& match step.out {
        Outcome::Ask(_) => step.node.wf(scale),
        Outcome::Quiesce(params, pos) => step.node.wf(scale) && params.wf(scale) && pos.wf(),
        Outcome::Done(score) => scale.holds(score),
        Outcome::Search(..) => false,
        Outcome::Overrun => true,
    }
}

/// The step follows from the node: the node stays the node of its parameters and
/// position, its best score and `alpha` only rise, what it makes it takes back, a child
/// is searched one ply further, a node that has the search end ends with zero, and of the
/// thread it touches only the line of its own entry of the stack.
pub open spec fn orderly(n: QNode, t: ThreadView, step: QStep) -> bool {
    let ply = n.params.ply;
    &&& step.node.params == n.params
    &&& step.node.pos == n.pos
    &&& step.node.alpha.0 >= n.alpha.0
    &&& step.node.best_score.0 >= n.best_score.0
    &&& step.node.moves_seen >= n.moves_seen
    &&& crate::node::carried_out(n.made(), step.out, step.node.made())
    &&& step.node.awaits_child() == (step.out is Search || step.out is Quiesce)
    &&& step.out matches Outcome::Quiesce(params, _) ==> params.ply == ply + crate::node::plies(step.node.made())
    &&& t.abort_now ==> step.thread.abort_now
    &&& step.thread.abort_now && !t.abort_now ==> step.out == Outcome::Done(Score(0))
    &&& step.thread.sel_depth >= t.sel_depth
    &&& step.thread.stack.len() == t.stack.len()
    &&& forall|i: int| 0 <= i < t.stack.len() && i != ply ==> #[trigger] step.thread.stack[i] == t.stack[i]
    &&& forall|i: int|
        0 <= i < t.stack.len() ==> (#[trigger] step.thread.stack[i]).singular == t.stack[i].singular
            && step.thread.stack[i].static_eval == t.stack[i].static_eval
    &&& step.thread == (ThreadView {
        abort_now: step.thread.abort_now,
        nodes: step.thread.nodes,
        sel_depth: step.thread.sel_depth,
        stack: step.thread.stack,
        ..t
    })
}

/// With a proper window, the window stays proper while the node waits, and so are those
/// of the children.
pub open spec fn stays_proper(n: QNode, step: QStep) -> bool {
    n.alpha.0 < n.params.beta.0 ==> {
        &&& !(step.out is Done) ==> step.node.alpha.0 < step.node.params.beta.0
        &&& step.out matches Outcome::Quiesce(params, _) ==> params.alpha.0 < params.beta.0
    }
}

/// Every quiescence node is started sound, with nothing made.
pub proof fn law_begin_is_sound(params: Params, pos: Position, t: ThreadView)
    requires
        t.wf(),
        pos.wf(),
        params.wf(t.scale),
    ensures
        sound(qsearch::begin(params, pos, t), t.scale),
        orderly(qsearch::fresh(params, pos, t.scale), t, qsearch::begin(params, pos, t)),
        stays_proper(qsearch::fresh(params, pos, t.scale), qsearch::begin(params, pos, t)),
{
}

/// Every step keeps what is known of nodes and threads, whatever the reply was, and
/// never hands a child, or its parent, anything off the scale. A quiescence node has
/// only quiescence children, and leaves the history and the correction tables alone.
pub proof fn law_step_is_sound(n: QNode, t: ThreadView, reply: Reply)
    requires
        t.wf(),
        n.wf(t.scale),
        n.answered_by(t, reply),
    ensures
        sound(qsearch::next(n, t, reply), t.scale),
        orderly(n, t, qsearch::next(n, t, reply)),
        stays_proper(n, qsearch::next(n, t, reply)),
        qsearch::next(n, t, reply).thread.tables == t.tables,
        !(qsearch::next(n, t, reply).out matches Outcome::Ask(Query::Store(_))),
{
    reveal(qsearch::next);
    let p = n.params;
    match (n.phase, reply) {
        (QPhase::Entry, Reply::Stop(stop)) => {
            reveal(qsearch::enter);
            if !(p.kind.pv && p.ply > MAX_PLY) {
                assert(search::visited(t, p).wf());
            }
        },
        (QPhase::Probe, Reply::Entry(entry)) => {
            reveal(qsearch::probed);
            reveal(qsearch::evaluated);
        },
        (QPhase::Evaluate, Reply::Eval(eval)) => {
            reveal(qsearch::evaluated);
        },
        (QPhase::Next, Reply::Move(pick)) => {
            reveal(qsearch::picked);
        },
        (QPhase::Unmake(mv, score), Reply::Done) => {
            reveal(qsearch::tried);
            assert(t.stack[p.ply + 1].pv.len() <= MAX_PLY - (p.ply + 1));
            assert(t.with_line(p.ply, mv).wf());
        },
        _ => {},
    }
}

/// Once the moves are looked at, the score does not fall below the window, nor below
/// what standing pat is worth, unless the search is to end.
pub proof fn law_score_is_not_below_alpha(n: QNode, t: ThreadView, reply: Reply)
    requires
        n.phase is Next || n.phase is Unmake,
        n.answered_by(t, reply),
        !t.abort_now,
    ensures
        qsearch::next(n, t, reply).out matches Outcome::Done(score) ==> score.0 >= n.alpha.0 && score.0
            >= n.best_score.0,
{
    reveal(qsearch::next);
    reveal(qsearch::picked);
    reveal(qsearch::tried);
}

/// Out of check, a node that is not lost makes three moves at most.
pub proof fn law_three_moves_are_enough(n: QNode, t: ThreadView, reply: Reply)
    requires
        n.phase is Next,
        n.answered_by(t, reply),
        !n.pos.board.in_check,
        !t.scale.spec_is_loss(n.best_score),
        n.moves_seen >= 3,
    ensures
        qsearch::next(n, t, reply).out is Done,
{
    reveal(qsearch::next);
    reveal(qsearch::picked);
}

/// Out of check, standing pat ends a node whose evaluation reaches `beta`.
pub proof fn law_standing_pat(n: QNode, t: ThreadView, raw_eval: Score)
    requires
        n.phase is Evaluate,
        n.answered_by(t, Reply::Eval(raw_eval)),
        t.scale.wf(),
        raw_eval.0 + t.tables.corr(n.pos.board) >= n.params.beta.0,
    ensures
        qsearch::next(n, t, Reply::Eval(raw_eval)).out matches Outcome::Done(score) && score.0 == raw_eval.0
            + t.tables.corr(n.pos.board),
{
    reveal(qsearch::next);
    reveal(qsearch::evaluated);
}

/// Once the search is to end, every new node ends at once, and a node that comes back
/// from a move ends too.
pub proof fn law_abort_ends_nodes(params: Params, pos: Position, n: QNode, t: ThreadView)
    requires
        t.abort_now,
        n.phase is Unmake,
    ensures
        qsearch::begin(params, pos, t).out == Outcome::Done(Score(0)),
        qsearch::begin(params, pos, t).thread == t,
        qsearch::next(n, t, Reply::Done).out == Outcome::Done(Score(0)),
        qsearch::next(n, t, Reply::Done).thread == t,
{
    reveal(qsearch::next);
    reveal(qsearch::tried);
}

/// The node is on a move, or waits for a child.
pub open spec fn under_way(n: QNode) -> bool {
    n.awaits_child() || n.phase is Make || n.phase is Unmake
}

/// At most how many steps a node that is under way takes once the search is to end.
pub open spec fn effort(n: QNode) -> nat {
    match n.phase {
        QPhase::Make(_) => 3,
        QPhase::Child(_) => 2,
        QPhase::Unmake(..) => 1,
        _ => 0,
    }
}

/// Once the search is to end, a node that is under way only takes back what it has made,
/// and ends with a score of zero, after a few steps at most.
pub proof fn law_abort_winds_down(n: QNode, t: ThreadView, reply: Reply)
    requires
        n.answered_by(t, reply),
        under_way(n),
        t.abort_now,
    ensures
        ({
            let step = qsearch::next(n, t, reply);
            &&& step.thread == t
            &&& !(step.out is Overrun)
            &&& !(step.out is Search)
            &&& !(step.out matches Outcome::Ask(Query::Store(_)))
            &&& step.out matches Outcome::Done(score) ==> score == Score(0)
            &&& step.out is Done || under_way(step.node)
            &&& effort(step.node) < effort(n)
        }),
{
    reveal(qsearch::next);
    reveal(qsearch::tried);
}

/// The node has been entered and has not ended.
pub open spec fn entered(n: QNode) -> bool {
    n.inside() || n.phase is Leaf
}

/// How a step bears on lines. On the principal variation a node forgets the line of its ply
/// when it is entered. Later the line changes only when a move was taken back, and then
/// becomes that move and the line of the next ply. A child is of the kind of the node's
/// first child.
pub open spec fn traced(n: QNode, t: ThreadView, step: QStep) -> bool {
    let ply = n.params.ply as int;
    let now = step.thread.stack[ply].pv;
    &&& step.out is Ask || step.out is Quiesce ==> entered(step.node)
    &&& step.out is Done ==> !entered(step.node)
    &&& n.phase is Entry ==> {
        ||| step.out is Done && step.thread.abort_now && now == t.stack[ply].pv
        ||| step.out is Overrun
        ||| !n.params.kind.pv && now == t.stack[ply].pv
        ||| now == Seq::<Move>::empty()
    }
    &&& !(n.phase is Entry) ==> now == t.stack[ply].pv || (n.phase matches QPhase::Unmake(mv, _)
        && n.params.kind.pv && !t.abort_now && now == seq![mv] + t.stack[ply + 1].pv)
    &&& step.node.phase matches QPhase::Unmake(mv, _) ==> n.phase == QPhase::Child(mv)
    &&& step.out matches Outcome::Quiesce(params, _) ==> step.node.phase is Child && !params.kind.root
        && params.kind.pv == n.params.kind.pv
}

/// Every step bears on lines as [`traced`] says.
pub proof fn law_lines_are_traced(n: QNode, t: ThreadView, reply: Reply)
    requires
        t.wf(),
        n.wf(t.scale),
        n.answered_by(t, reply),
    ensures
        traced(n, t, qsearch::next(n, t, reply)),
{
    reveal(qsearch::next);
    match (n.phase, reply) {
        (QPhase::Entry, Reply::Stop(stop)) => {
            reveal(qsearch::enter);
        },
        (QPhase::Probe, Reply::Entry(entry)) => {
            reveal(qsearch::probed);
            reveal(qsearch::evaluated);
        },
        (QPhase::Evaluate, Reply::Eval(eval)) => {
            reveal(qsearch::evaluated);
        },
        (QPhase::Next, Reply::Move(pick)) => {
            reveal(qsearch::picked);
        },
        (QPhase::Unmake(mv, score), Reply::Done) => {
            reveal(qsearch::tried);
        },
        _ => {},
    }
}

/// The node is on a move: it makes it, searches it or has just taken it back.
pub open spec fn on_a_move(n: QNode) -> bool {
    n.phase is Make || n.phase is Child || n.phase is Unmake
}

/// A root has a line as soon as it has searched a move.
pub open spec fn has_line(n: QNode, t: ThreadView) -> bool {
    n.params.kind.root && n.moves_seen > 0 ==> t.stack[n.params.ply as int].pv.len() > 0
}

/// A step of an entered node keeps the line of a root, unless it ends a search that was cut
/// short. A move that the node is on is counted when it is taken back, and until then the
/// node stays on it.
pub proof fn law_moves_are_counted(n: QNode, t: ThreadView, reply: Reply)
    requires
        t.wf(),
        n.wf(t.scale),
        n.answered_by(t, reply),
        n.phase is Entry ==> n.moves_seen == 0,
    ensures
        ({
            let step = qsearch::next(n, t, reply);
            &&& has_line(n, t) ==> has_line(step.node, step.thread) || step.out is Overrun || step.out is Done
                && step.thread.abort_now
            &&& on_a_move(n) && step.out is Done && !step.thread.abort_now ==> step.node.moves_seen > 0
            &&& on_a_move(n) && !(step.out is Done || step.out is Overrun) ==> on_a_move(step.node)
                || step.node.moves_seen > 0
            &&& !(step.node.phase is Entry)
        }),
{
    reveal(qsearch::next);
    match n.phase {
        QPhase::Entry => {
            reveal(qsearch::enter);
        },
        QPhase::Probe => {
            reveal(qsearch::probed);
            reveal(qsearch::evaluated);
        },
        QPhase::Evaluate => {
            reveal(qsearch::evaluated);
        },
        QPhase::Next => {
            reveal(qsearch::picked);
        },
        QPhase::Unmake(..) => {
            reveal(qsearch::tried);
        },
        _ => {},
    }
}

} // verus!
