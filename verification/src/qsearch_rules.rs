//! The rules of the quiescence search, over plain values.
use vstd::prelude::*;

use crate::board::{Position, TerminalState};
use crate::limits::MAX_PLY;
use crate::node::{Outcome, Params, Pick, Query, Reply, TTEntry, TTFlag};
use crate::qsearch;
use crate::qsearch::{QNode, QPhase};
use crate::score::Score;
use crate::thread::{EntryView, ThreadView};

verus! {

/// Of the node nothing has changed but what it waits for.
pub open spec fn only_waits(n: QNode, node: QNode) -> bool {
    node == (QNode { phase: node.phase, ..n })
}

/// A new node has seen no move and has no best score yet. It looks at the clock first, and with
/// the search to end it ends at once.
pub proof fn law_new_node(params: Params, pos: Position, t: ThreadView)
    requires
        t.wf(),
    ensures
        ({
            let step = qsearch::begin(params, pos, t);
            let n = step.node;
            &&& n.params == params && n.pos == pos && n.alpha == params.alpha && n.entry is None
            &&& n.best_score.0 == -t.scale.infinite && n.moves_seen == 0
            &&& step.thread == t
            &&& t.abort_now ==> step.out == Outcome::Done(Score(0))
            &&& !t.abort_now ==> step.out == Outcome::Ask(Query::Stop { nodes: t.nodes }) && n.phase is Entry
        }),
{
}

/// A node that hears that the time is up ends with zero and has the search end; nothing else
/// changes.
pub proof fn law_time_is_up(n: QNode, t: ThreadView)
    requires
        n.phase is Entry,
    ensures
        qsearch::next(n, t, Reply::Stop(true)).out == Outcome::Done(Score(0)),
        qsearch::next(n, t, Reply::Stop(true)).thread == (ThreadView { abort_now: true, ..t }),
{
    reveal(qsearch::next);
}

/// An entered node: a side that is mated scores the worse the sooner it is, a draw and a
/// repetition score nothing, at the last ply the evaluation is asked for, and anywhere else
/// what is stored. Only the last is counted. On the principal variation the old line is
/// forgotten.
pub proof fn law_entered_node(n: QNode, t: ThreadView)
    requires
        t.wf(),
        n.wf(t.scale),
        n.phase is Entry,
    ensures
        ({
            let p = n.params;
            let ply = p.ply as int;
            let step = qsearch::next(n, t, Reply::Stop(false));
            let then = step.thread;
            let over = n.pos.board.terminal is Some || n.pos.repetition;
            &&& step.out is Overrun <==> p.kind.pv && p.ply > MAX_PLY
            &&& !(step.out is Overrun) ==> {
                &&& n.pos.board.terminal matches Some(TerminalState::Checkmate(_)) ==> step.out == Outcome::Done(
                    Score((p.ply - t.scale.max_mate) as i16),
                )
                &&& n.pos.board.terminal matches Some(TerminalState::Draw) ==> step.out == Outcome::Done(Score(0))
                &&& n.pos.board.terminal is None && n.pos.repetition ==> step.out == Outcome::Done(Score(0))
                &&& !over && p.ply >= MAX_PLY ==> step.out == Outcome::Ask(Query::Evaluate) && step.node.phase is Leaf
                &&& !over && p.ply < MAX_PLY ==> step.out == Outcome::Ask(
                    Query::Probe { hash: n.pos.board.hash, ply: p.ply },
                ) && step.node.phase is Probe
                &&& only_waits(n, step.node)
                &&& then.nodes == (if over || p.ply >= MAX_PLY {
                    t.nodes as int
                } else if t.nodes == u64::MAX {
                    0
                } else {
                    t.nodes + 1
                })
                &&& then.sel_depth >= t.sel_depth && then.sel_depth >= p.ply && (then.sel_depth == t.sel_depth
                    || then.sel_depth == p.ply)
                &&& then.stack == (if p.kind.pv {
                    t.stack.update(ply, EntryView { pv: Seq::empty(), ..t.stack[ply] })
                } else {
                    t.stack
                })
                &&& then == (ThreadView { nodes: then.nodes, sel_depth: then.sel_depth, stack: then.stack, ..t })
            }
        }),
{
    reveal(qsearch::next);
    reveal(qsearch::enter);
}

/// At the last ply the evaluation is the score.
pub proof fn law_last_ply(n: QNode, t: ThreadView, eval: Score)
    requires
        n.phase is Leaf,
    ensures
        qsearch::next(n, t, Reply::Eval(eval)).out == Outcome::Done(eval),
        qsearch::next(n, t, Reply::Eval(eval)).thread == t,
{
    reveal(qsearch::next);
}

/// What is stored, in check: off the principal variation a stored score of any depth is the
/// score if it says on which side of the window the true one lies; otherwise the moves come
/// next. Out of check the stored evaluation stands for the node's own, and where nothing is
/// stored it is asked for.
pub proof fn law_stored_knowledge(n: QNode, t: ThreadView, entry: Option<TTEntry>)
    requires
        t.wf(),
        n.wf(t.scale),
        n.phase is Probe,
        n.answered_by(t, Reply::Entry(entry)),
    ensures
        ({
            let step = qsearch::next(n, t, Reply::Entry(entry));
            let told = !n.params.kind.pv && (entry matches Some(e) && (e.flag == TTFlag::Exact || e.flag == TTFlag::Lower
                && e.score.0 >= n.params.beta.0 || e.flag == TTFlag::Upper && e.score.0 <= n.alpha.0));
            &&& n.pos.board.in_check && told ==> step.out == Outcome::Done(entry.unwrap().score) && step.thread == t
            &&& n.pos.board.in_check && !told ==> {
                &&& step.thread == t
                &&& step.node == (QNode { phase: QPhase::Picker, entry, ..n })
                &&& step.out matches Outcome::Ask(Query::OpenPicker(setup)) && !setup.skip_quiets
            }
            &&& !n.pos.board.in_check ==> match entry {
                Some(e) => step == qsearch::next(
                    QNode { phase: QPhase::Evaluate, entry, ..n },
                    t,
                    Reply::Eval(e.eval),
                ),
                None => step.out == Outcome::Ask(Query::Evaluate) && step.thread == t && step.node == (QNode {
                    phase: QPhase::Evaluate,
                    entry,
                    ..n
                }),
            }
        }),
{
    reveal(qsearch::next);
    reveal(qsearch::probed);
    reveal(qsearch::evaluated);
}

/// Out of check a node may stand pat: on its raw evaluation plus what the tables have learned
/// of the board. It ends with that where it reaches `beta`, and has it as its floor where it is
/// not below the window. Off the principal variation a stored score of any depth then is the
/// score if it says on which side of what is left of the window the true one lies; otherwise
/// the moves that are not quiet come next.
pub proof fn law_standing_pat(n: QNode, t: ThreadView, raw: Score)
    requires
        t.wf(),
        n.wf(t.scale),
        n.phase is Evaluate,
        n.answered_by(t, Reply::Eval(raw)),
    ensures
        ({
            let step = qsearch::next(n, t, Reply::Eval(raw));
            let eval = raw.0 + t.tables.corr(n.pos.board);
            let floor: int = if eval >= n.alpha.0 {
                eval
            } else {
                n.alpha.0 as int
            };
            let told = !n.params.kind.pv && (n.entry matches Some(e) && (e.flag == TTFlag::Exact || e.flag
                == TTFlag::Lower && e.score.0 >= n.params.beta.0 || e.flag == TTFlag::Upper && e.score.0 <= floor));
            &&& step.thread == t
            &&& eval >= n.params.beta.0 ==> (step.out matches Outcome::Done(s) && s.0 == eval)
            &&& eval < n.params.beta.0 && told ==> step.out == Outcome::Done(n.entry.unwrap().score)
            &&& eval < n.params.beta.0 && !told ==> {
                &&& step.out matches Outcome::Ask(Query::OpenPicker(_))
                &&& step.node.alpha.0 == floor
                &&& step.node == (QNode { phase: QPhase::Picker, alpha: step.node.alpha, ..n })
            }
        }),
{
    reveal(qsearch::next);
    reveal(qsearch::evaluated);
}

/// Whatever the kind of a node and whatever it is told: the picker that it asks for hands out
/// quiet moves if it is in check, and does not if it is not.
pub proof fn law_quiet_moves_answer_checks_only(n: QNode, t: ThreadView, reply: Reply)
    requires
        t.wf(),
        n.wf(t.scale),
        n.answered_by(t, reply),
    ensures
        qsearch::next(n, t, reply).out matches Outcome::Ask(Query::OpenPicker(setup)) ==> setup.skip_quiets
            == !n.pos.board.in_check && setup.quiescence && setup.see_threshold == 0 && setup.tt_move is None,
{
    reveal(qsearch::next);
    reveal(qsearch::enter);
    reveal(qsearch::probed);
    reveal(qsearch::evaluated);
    reveal(qsearch::picked);
    reveal(qsearch::tried);
}

/// With a picker there, the node asks for a move.
pub proof fn law_picker_is_used(n: QNode, t: ThreadView)
    requires
        n.phase is Picker,
    ensures
        ({
            let step = qsearch::next(n, t, Reply::Done);
            step.out == Outcome::Ask(Query::NextMove) && step.thread == t && step.node.phase is Next && only_waits(
                n,
                step.node,
            )
        }),
{
    reveal(qsearch::next);
}

/// A move that is handed out is made, unless three were tried out of check and not all of them
/// were lost. Without another move the node ends with the better of its best score and its
/// floor.
pub proof fn law_next_move(n: QNode, t: ThreadView, pick: Option<Pick>)
    requires
        n.phase is Next,
    ensures
        ({
            let step = qsearch::next(n, t, Reply::Move(pick));
            let enough = n.moves_seen >= 3 && !n.pos.board.in_check && n.best_score.0 >= -t.scale.nomate;
            &&& step.thread == t
            &&& pick is None || enough ==> (step.out matches Outcome::Done(s) && s.0 >= n.best_score.0 && s.0 >= n.alpha.0
                && (s == n.best_score || s == n.alpha))
            &&& !enough && pick is Some ==> step.out == Outcome::Ask(Query::MakeMove(pick.unwrap().mv))
                && step.node.phase == QPhase::Make(pick.unwrap().mv) && only_waits(n, step.node)
        }),
{
    reveal(qsearch::next);
    reveal(qsearch::picked);
}

/// A made move is searched from the other side, one ply on, with the window turned around; the
/// child lies on the principal variation if the node does. Then it is taken back, with the
/// score turned around.
pub proof fn law_made_move(n: QNode, t: ThreadView, pos: Position, child: Score)
    requires
        t.wf(),
        n.wf(t.scale),
        t.scale.holds(child),
    ensures
        n.phase matches QPhase::Make(mv) ==> ({
            let step = qsearch::next(n, t, Reply::Reached(pos));
            &&& step.thread == t && only_waits(n, step.node) && step.node.phase == QPhase::Child(mv)
            &&& step.out matches Outcome::Quiesce(c, at) && at == pos && c.ply == n.params.ply + 1 && c.alpha.0
                == -n.params.beta.0 && c.beta.0 == -n.alpha.0 && !c.kind.root && c.kind.pv == n.params.kind.pv
                && c.depth == 0 && !c.cutnode
        }),
        n.phase matches QPhase::Child(mv) ==> ({
            let step = qsearch::next(n, t, Reply::Child(child));
            &&& step.thread == t && only_waits(n, step.node) && step.out == Outcome::Ask(Query::UnmakeMove)
            &&& step.node.phase matches QPhase::Unmake(back, score) && back == mv && score.0 == -child.0
        }),
{
    reveal(qsearch::next);
}

/// A move that was taken back counts, unless the search is to end: the best score is the best
/// of all, and the floor rises to it. On the principal variation a move above the floor, and at
/// the root the first one anyway, becomes the line of the node with that of its child behind
/// it. A move that reaches `beta` ends the node.
pub proof fn law_move_counts(n: QNode, t: ThreadView, score: Score)
    requires
        t.wf(),
        n.wf(t.scale),
        n.phase matches QPhase::Unmake(_, s) && s == score,
    ensures
        ({
            let p = n.params;
            let ply = p.ply as int;
            let mv = n.phase->Unmake_0;
            let step = qsearch::next(n, t, Reply::Done);
            let above = score.0 > n.alpha.0;
            let leads = p.kind.pv && above || p.kind.root && n.moves_seen == 0;
            let best = if score.0 > n.best_score.0 {
                score
            } else {
                n.best_score
            };
            let floor = if above {
                score
            } else {
                n.alpha
            };
            &&& t.abort_now ==> step.out == Outcome::Done(Score(0)) && step.thread == t
            &&& !t.abort_now ==> {
                &&& step.thread == (ThreadView {
                    stack: if leads {
                        t.stack.update(ply, EntryView { pv: seq![mv] + t.stack[ply + 1].pv, ..t.stack[ply] })
                    } else {
                        t.stack
                    },
                    ..t
                })
                &&& step.node == (QNode {
                    phase: step.node.phase,
                    best_score: best,
                    alpha: floor,
                    moves_seen: (if n.moves_seen < u32::MAX {
                        n.moves_seen + 1
                    } else {
                        n.moves_seen as int
                    }) as u32,
                    ..n
                })
                &&& score.0 < p.beta.0 ==> step.out == Outcome::Ask(Query::NextMove) && step.node.phase is Next
                &&& score.0 >= p.beta.0 ==> (step.out matches Outcome::Done(s) && s.0 >= best.0 && s.0 >= floor.0 && (s
                    == best || s == floor))
            }
        }),
{
    reveal(qsearch::next);
    reveal(qsearch::tried);
}

/// A node is over exactly if it has ended with a score or cannot go on.
pub proof fn law_when_a_node_is_over(n: QNode, t: ThreadView, reply: Reply)
    requires
        t.wf(),
        n.wf(t.scale),
        n.answered_by(t, reply),
    ensures
        ({
            let step = qsearch::next(n, t, reply);
            step.node.phase is Over <==> step.out is Done || step.out is Overrun
        }),
{
    reveal(qsearch::next);
    reveal(qsearch::enter);
    reveal(qsearch::probed);
    reveal(qsearch::evaluated);
    reveal(qsearch::picked);
    reveal(qsearch::tried);
}

/// Which replies a node takes: those to what it waits for, with scores and corrected
/// evaluations that lie on the scale, moves that start from a piece on the board, and
/// positions whose last move lies on it.
pub proof fn law_replies_that_are_taken(n: QNode, t: ThreadView, reply: Reply)
    ensures
        ({
            let on_scale = |x: int| -t.scale.infinite <= x <= t.scale.infinite;
            let corr = t.tables.corr(n.pos.board);
            let taken = match reply {
                Reply::Done => n.phase is Picker || n.phase is Unmake,
                Reply::Stop(_) => n.phase is Entry,
                Reply::Entry(e) => n.phase is Probe && (e matches Some(e) ==> on_scale(e.score.0 as int) && (
                n.pos.board.in_check || on_scale(e.eval.0 + corr))),
                Reply::Eval(s) => n.phase is Leaf && on_scale(s.0 as int) || n.phase is Evaluate && on_scale(
                    s.0 + corr,
                ),
                Reply::Reached(p) => n.phase is Make && (p.prev matches Some(m) ==> m.1.from < 64 && m.1.to < 64),
                Reply::Move(m) => n.phase is Next && (m matches Some(m) ==> m.mv.from < 64 && m.mv.to < 64
                    && n.pos.board.pieces@[m.mv.from as int] is Some),
                Reply::Reduction(_) => false,
                Reply::See(_) => false,
                Reply::Child(s) => n.phase is Child && on_scale(s.0 as int),
            };
            n.answered_by(t, reply) == taken
        }),
{
}

} // verus!
