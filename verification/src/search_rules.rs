//! The rules of the main search, over plain values: what a node does with each answer, told
//! by its window, its depth, its board and what stands on the stack.
use vstd::prelude::*;

use crate::board::{Move, Position, TerminalState};
use crate::limits::MAX_PLY;
use crate::node::{Outcome, Params, Pick, Query, Reply, TTEntry, TTFlag};
use crate::score::Score;
use crate::search;
use crate::search::{Core, NodeView, Phase, Trial};
use crate::thread::{EntryView, ThreadView};

verus! {

/// Of the node nothing has changed but what it waits for.
pub open spec fn only_waits(n: NodeView, node: NodeView) -> bool {
    node == (NodeView { core: Core { phase: node.core.phase, ..n.core }, ..n })
}

/// Of the thread nothing has changed but the mark at this ply.
pub open spec fn only_marks(t: ThreadView, then: ThreadView, ply: u16, mark: Option<Move>) -> bool {
    then == (ThreadView {
        stack: t.stack.update(ply as int, EntryView { singular: mark, ..t.stack[ply as int] }),
        ..t
    })
}

/// A new node has seen no move, has no best score yet, and starts with the window and the
/// position that it was given. Only the root is entered without a look at the clock, and
/// with the search to end any other node ends at once.
pub proof fn law_new_node(params: Params, pos: Position, t: ThreadView)
    requires
        t.wf(),
        pos.wf(),
        params.wf(t.scale),
    ensures
        ({
            let step = search::begin(params, pos, t);
            let c = step.node.core;
            &&& c.params == params && c.pos == pos && c.alpha == params.alpha
            &&& c.best_score.0 == -t.scale.infinite && c.moves_seen == 0 && c.best_move is None
            &&& c.flag == TTFlag::Upper && c.entry is None
            &&& step.node.quiets.len() == 0 && step.node.tactics.len() == 0
            &&& !params.kind.root && t.abort_now ==> step.out == Outcome::Done(Score(0)) && step.thread == t
            &&& !params.kind.root && !t.abort_now ==> step.out == Outcome::Ask(Query::Stop { nodes: t.nodes })
                && step.thread == t && c.phase is Entry && c.singular is None
            &&& params.kind.root ==> !(step.out matches Outcome::Ask(Query::Stop { .. })) && step == search::next(
                search::fresh(params, pos, t.scale),
                t,
                Reply::Stop(false),
            )
        }),
{
    reveal(search::enter);
    reveal(search::next);
}

/// A node that hears that the time is up ends with zero and has the search end; nothing else
/// changes.
pub proof fn law_time_is_up(n: NodeView, t: ThreadView)
    requires
        n.core.phase is Entry,
    ensures
        search::next(n, t, Reply::Stop(true)).out == Outcome::Done(Score(0)),
        search::next(n, t, Reply::Stop(true)).thread == (ThreadView { abort_now: true, ..t }),
{
    reveal(search::next);
}

/// An entered node: a side that is mated scores the worse the sooner it is, a draw and a
/// repetition below the root score nothing, a search without depth hands the same window on
/// to the quiescence search, and any other asks what is stored. All but the root and the
/// quiescence search are counted. On the principal variation the old line is forgotten.
pub proof fn law_entered_node(n: NodeView, t: ThreadView)
    requires
        t.wf(),
        n.wf(t.scale),
        n.core.phase is Entry,
    ensures
        ({
            let p = n.core.params;
            let pos = n.core.pos;
            let step = search::next(n, t, Reply::Stop(false));
            let then = step.thread;
            let ply = p.ply as int;
            let repeated = !p.kind.root && pos.repetition;
            let deep = pos.board.terminal is None && !repeated && p.depth > 0;
            let leaf = pos.board.terminal is Some || repeated;
            &&& step.out is Overrun <==> p.ply > MAX_PLY && (p.kind.pv || deep)
            &&& !(step.out is Overrun) ==> {
                &&& pos.board.terminal matches Some(TerminalState::Checkmate(_)) ==> step.out == Outcome::Done(
                    Score((p.ply - t.scale.max_mate) as i16),
                )
                &&& pos.board.terminal matches Some(TerminalState::Draw) ==> step.out == Outcome::Done(Score(0))
                &&& pos.board.terminal is None && repeated ==> step.out == Outcome::Done(Score(0))
                &&& !leaf && p.depth <= 0 ==> step.node.core.phase is Quiesce && (step.out matches Outcome::Quiesce(
                    q,
                    at,
                ) && at == pos && q.kind == p.kind && q.ply == p.ply && q.alpha == p.alpha && q.beta == p.beta && q.depth == 0
                    && !q.cutnode)
                &&& deep ==> step.out == Outcome::Ask(Query::Probe { hash: pos.board.hash, ply: p.ply })
                    && step.node.core.phase is Probe && step.node.core.singular == t.stack[ply].singular
                &&& step.node == (NodeView {
                    core: Core { phase: step.node.core.phase, singular: step.node.core.singular, ..n.core },
                    ..n
                })
                &&& then.nodes == (if leaf || deep && !p.kind.root {
                    if t.nodes == u64::MAX {
                        0
                    } else {
                        t.nodes + 1
                    }
                } else {
                    t.nodes as int
                })
                &&& then.sel_depth >= t.sel_depth && then.sel_depth >= p.ply && (then.sel_depth == t.sel_depth
                    || then.sel_depth == p.ply)
                &&& then.stack == (if p.kind.pv {
                    t.stack.update(ply, EntryView { pv: Seq::empty(), ..t.stack[ply] })
                } else {
                    t.stack
                })
                &&& then == (ThreadView { nodes: then.nodes, sel_depth: then.sel_depth, stack: then.stack, ..t })
            }
        }),
{
    reveal(search::enter);
    reveal(search::next);
}

/// A stored score ends a node only off the principal variation, with no move left out, from
/// at least the node's depth, and if it says on which side of the window the true score lies.
/// Then the score is the stored one. Otherwise the node goes on with the stored evaluation,
/// or asks for one.
pub proof fn law_stored_scores(n: NodeView, t: ThreadView, entry: Option<TTEntry>)
    requires
        t.wf(),
        n.wf(t.scale),
        n.core.phase is Probe,
        entry matches Some(e) ==> t.scale.holds(e.score),
    ensures
        ({
            let p = n.core.params;
            let step = search::next(n, t, Reply::Entry(entry));
            &&& step.node.core.entry == entry
            &&& entry is None ==> step.out == Outcome::Ask(Query::Evaluate) && step.thread == t
                && step.node.core.phase is Evaluate && step.node == (NodeView {
                core: Core { phase: Phase::Evaluate, entry, ..n.core },
                ..n
            })
            &&& entry matches Some(e) ==> {
                let usable = !p.kind.pv && n.core.singular is None && e.depth >= p.depth;
                let tells = e.flag == TTFlag::Exact || e.flag == TTFlag::Lower && e.score.0 >= p.beta.0 || e.flag
                    == TTFlag::Upper && e.score.0 <= n.core.alpha.0;
                if usable && tells {
                    step.out == Outcome::Done(e.score) && step.thread == t
                } else {
                    step == search::next(
                        NodeView { core: Core { entry, phase: Phase::Evaluate, ..n.core }, ..n },
                        t,
                        Reply::Eval(e.eval),
                    )
                }
            }
        }),
{
    reveal(search::next);
    reveal(search::probed);
    reveal(search::evaluated);
}

/// The evaluation of a node is the raw one plus what the tables have learned of the board,
/// kept clear of the mates. It is noted on the stack. The side to move is improving if it
/// stands better than two plies before, or four where that is unknown, or if nothing is
/// known; never in check.
pub proof fn law_evaluation_is_noted(n: NodeView, t: ThreadView, raw: Score)
    requires
        t.wf(),
        n.wf(t.scale),
        n.core.phase is Evaluate,
    ensures
        ({
            let step = search::next(n, t, Reply::Eval(raw));
            let ply = n.core.params.ply as int;
            let sum = raw.0 + t.tables.corr(n.core.pos.board);
            let noted = step.thread.stack[ply].static_eval;
            let unknown = -t.scale.infinite;
            &&& -t.scale.nomate <= sum <= t.scale.nomate ==> noted.0 == sum
            &&& sum > t.scale.nomate ==> noted.0 == t.scale.nomate
            &&& sum < -t.scale.nomate ==> noted.0 == -t.scale.nomate
            &&& step.thread == (ThreadView {
                stack: t.stack.update(ply, EntryView { static_eval: noted, ..t.stack[ply] }),
                ..t
            })
            &&& step.node.core.static_eval == noted
            &&& step.node == (NodeView {
                core: Core {
                    phase: step.node.core.phase,
                    raw_eval: raw,
                    static_eval: noted,
                    improving: step.node.core.improving,
                    ..n.core
                },
                ..n
            })
            &&& n.core.pos.board.in_check ==> !step.node.core.improving
            &&& !n.core.pos.board.in_check && ply >= 2 && t.stack[ply - 2].static_eval.0 != unknown ==> (
            step.node.core.improving <==> noted.0 > t.stack[ply - 2].static_eval.0)
            &&& !n.core.pos.board.in_check && ply >= 4 && t.stack[ply - 2].static_eval.0 == unknown
                && t.stack[ply - 4].static_eval.0 != unknown ==> (step.node.core.improving <==> noted.0
                > t.stack[ply - 4].static_eval.0)
            &&& !n.core.pos.board.in_check && (ply < 2 || t.stack[ply - 2].static_eval.0 == unknown) && (ply < 4
                || t.stack[ply - 4].static_eval.0 == unknown) ==> step.node.core.improving
        }),
{
    reveal(search::next);
    reveal(search::evaluated);
    let step = search::next(n, t, Reply::Eval(raw));
    let ply = n.core.params.ply as int;
    assert(step.thread.stack =~= t.stack.update(
        ply,
        EntryView { static_eval: step.thread.stack[ply].static_eval, ..t.stack[ply] },
    ));
}

/// On the principal variation, in check and with a move left out, a node always goes on to
/// its moves. Elsewhere it ends with its evaluation where that beats `beta` by 80 for each of
/// its plies, fewer than six, one of them forgiven where it is improving; it passes where it
/// has at least three plies, its evaluation reaches `beta` and the last move was no pass; and
/// otherwise it goes on to its moves.
pub proof fn law_what_an_evaluation_decides(n: NodeView, t: ThreadView, raw: Score)
    requires
        t.wf(),
        n.wf(t.scale),
        n.core.phase is Evaluate,
    ensures
        ({
            let p = n.core.params;
            let step = search::next(n, t, Reply::Eval(raw));
            let eval = step.thread.stack[p.ply as int].static_eval;
            let plies: int = if step.node.core.improving && p.depth >= 1 {
                p.depth - 1
            } else if p.depth >= 0 {
                p.depth as int
            } else {
                0
            };
            let held = p.kind.pv || n.core.pos.board.in_check || n.core.singular is Some;
            let good = p.depth < 6 && eval.0 >= p.beta.0 + 80 * plies;
            let passes = p.depth >= 3 && eval.0 >= p.beta.0 && n.core.pos.prev is Some;
            &&& held || !good && !passes ==> (step.out matches Outcome::Ask(Query::OpenPicker(_))) && step.node.core.phase is Picker
            &&& !held && good ==> step.out == Outcome::Done(eval)
            &&& !held && !good && passes ==> step.out == Outcome::Ask(Query::MakeNull) && step.node.core.phase is NullMake
        }),
{
    reveal(search::next);
    reveal(search::evaluated);
    law_evaluation_is_noted(n, t, raw);
}

/// A higher raw evaluation, or a table that has learned to think more of the board, never
/// gives a lower evaluation of the node.
pub proof fn law_evaluation_follows_the_correction(n: NodeView, low: ThreadView, high: ThreadView, raw: Score, more: Score)
    requires
        low.wf(),
        high.wf(),
        low.scale == high.scale,
        n.wf(low.scale),
        n.core.phase is Evaluate,
        low.tables.corr(n.core.pos.board) <= high.tables.corr(n.core.pos.board),
        raw.0 <= more.0,
    ensures
        search::next(n, low, Reply::Eval(raw)).node.core.static_eval.0 <= search::next(
            n,
            high,
            Reply::Eval(more),
        ).node.core.static_eval.0,
{
    law_evaluation_is_noted(n, low, raw);
    law_evaluation_is_noted(n, high, more);
}

/// Once a search has shown a board to be worth more than its evaluation, no node evaluates
/// that board lower than before; once it was shown to be worth less, none evaluates it higher.
pub proof fn law_lessons_reach_the_evaluation(
    n: NodeView,
    t: ThreadView,
    raw: Score,
    depth: int,
    score: int,
    static_eval: int,
)
    requires
        t.wf(),
        n.wf(t.scale),
        n.core.phase is Evaluate,
        depth >= 0,
    ensures
        ({
            let taught = ThreadView {
                tables: t.tables.update_corr(n.core.pos.board, depth, score, static_eval),
                ..t
            };
            let before = search::next(n, t, Reply::Eval(raw)).node.core.static_eval.0;
            let after = search::next(n, taught, Reply::Eval(raw)).node.core.static_eval.0;
            &&& score >= static_eval ==> after >= before
            &&& score <= static_eval ==> after <= before
        }),
{
    let board = n.core.pos.board;
    let taught = ThreadView { tables: t.tables.update_corr(board, depth, score, static_eval), ..t };
    crate::history::law_update_corr_keeps_bounds(t.tables, board, depth, score, static_eval);
    crate::table_rules::law_correction_follows_the_error(t.tables, board, depth, score, static_eval);
    law_evaluation_is_noted(n, t, raw);
    law_evaluation_is_noted(n, taught, raw);
}

/// Whatever a node is told, it passes only out of check, off the principal variation, with no
/// move left out, with three plies or more, and after a move that was no pass itself.
pub proof fn law_when_a_node_passes(n: NodeView, t: ThreadView, reply: Reply)
    requires
        t.wf(),
        n.wf(t.scale),
        n.answered_by(t.scale, reply),
        search::next(n, t, reply).out == Outcome::Ask(Query::MakeNull),
    ensures
        !n.core.pos.board.in_check,
        !n.core.params.kind.pv,
        n.core.singular is None,
        n.core.pos.prev is Some,
        n.core.params.depth >= 3,
        n.core.phase is Probe || n.core.phase is Evaluate,
        search::next(n, t, reply).node.core.static_eval.0 >= n.core.params.beta.0,
{
    match (n.core.phase, reply) {
        (Phase::Probe, Reply::Entry(entry)) => {
            law_stored_scores(n, t, entry);
            if let Some(e) = entry {
                let m = NodeView { core: Core { entry, phase: Phase::Evaluate, ..n.core }, ..n };
                law_evaluation_is_noted(m, t, e.eval);
                law_what_an_evaluation_decides(m, t, e.eval);
            }
        },
        (Phase::Evaluate, Reply::Eval(raw)) => {
            law_evaluation_is_noted(n, t, raw);
            law_what_an_evaluation_decides(n, t, raw);
        },
        _ => {
            lemma_elsewhere(n, t, reply);
        },
    }
}

proof fn lemma_elsewhere(n: NodeView, t: ThreadView, reply: Reply)
    requires
        !(n.core.phase is Probe || n.core.phase is Evaluate),
    ensures
        search::next(n, t, reply).out != Outcome::Ask(Query::MakeNull),
        search::next(n, t, reply).out matches Outcome::Ask(Query::OpenPicker(setup)) ==> {
            &&& n.core.phase is NullUnmake
            &&& search::next(n, t, reply).node.core.entry == n.core.entry
            &&& !setup.skip_quiets && !setup.quiescence && setup.see_threshold == 0
            &&& setup.tt_move == match n.core.entry {
                Some(e) => e.mv,
                None => None,
            }
        },
        search::next(n, t, reply).node.core.phase is Over <==> search::next(n, t, reply).out is Done || search::next(
            n,
            t,
            reply,
        ).out is Overrun,
{
    reveal(search::next);
    match n.core.phase {
        Phase::Entry => {
            reveal(search::enter);
        },
        Phase::NullUnmake(_) => {
            reveal(search::null_done);
        },
        Phase::Next => {
            reveal(search::picked);
        },
        Phase::Reduce(_) => {
            reveal(search::reduced);
            reveal(search::quiet_see);
            reveal(search::consider);
        },
        Phase::Skip(_) | Phase::See(_) => {
            reveal(search::quiet_see);
            reveal(search::consider);
        },
        Phase::Singular(_) => {
            reveal(search::singled_out);
        },
        Phase::Make(_) => {
            reveal(search::made);
        },
        Phase::Scout(..) | Phase::Research(..) => {
            reveal(search::scouted);
            reveal(search::looked);
        },
        Phase::Unmake(..) => {
            reveal(search::tried);
        },
        Phase::Store => {
            reveal(search::conclude);
        },
        _ => {},
    }
}

/// Whatever a node is told: the picker that it asks for hands out all moves, the stored one
/// first. And it is over exactly if it has ended with a score or cannot go on.
pub proof fn law_all_moves_are_handed_out(n: NodeView, t: ThreadView, reply: Reply)
    requires
        t.wf(),
        n.wf(t.scale),
        n.answered_by(t.scale, reply),
    ensures
        search::next(n, t, reply).out matches Outcome::Ask(Query::OpenPicker(setup)) ==> {
            &&& !setup.skip_quiets && !setup.quiescence && setup.see_threshold == 0
            &&& setup.tt_move == match search::next(n, t, reply).node.core.entry {
                Some(e) => e.mv,
                None => None,
            }
        },
        search::next(n, t, reply).node.core.phase is Over <==> search::next(n, t, reply).out is Done || search::next(
            n,
            t,
            reply,
        ).out is Overrun,
{
    if n.core.phase is Probe || n.core.phase is Evaluate {
        reveal(search::next);
        reveal(search::probed);
        reveal(search::evaluated);
    } else {
        lemma_elsewhere(n, t, reply);
    }
}

/// In check, a node that is not answered from the table goes on to its evaluation and then to
/// all of its moves.
pub proof fn law_checks_are_answered_by_moves(n: NodeView, t: ThreadView, reply: Reply)
    requires
        t.wf(),
        n.wf(t.scale),
        n.answered_by(t.scale, reply),
        n.core.pos.board.in_check,
        n.core.phase is Probe || n.core.phase is Evaluate,
    ensures
        ({
            let out = search::next(n, t, reply).out;
            ||| out == Outcome::Ask(Query::Evaluate)
            ||| out matches Outcome::Ask(Query::OpenPicker(setup)) && !setup.skip_quiets
            ||| n.core.phase is Probe && (reply matches Reply::Entry(Some(e)) && out == Outcome::Done(e.score)
                && e.depth >= n.core.params.depth)
        }),
{
    law_all_moves_are_handed_out(n, t, reply);
    match (n.core.phase, reply) {
        (Phase::Probe, Reply::Entry(entry)) => {
            law_stored_scores(n, t, entry);
            if let Some(e) = entry {
                let m = NodeView { core: Core { entry, phase: Phase::Evaluate, ..n.core }, ..n };
                law_what_an_evaluation_decides(m, t, e.eval);
            }
        },
        (Phase::Evaluate, Reply::Eval(raw)) => {
            law_what_an_evaluation_decides(n, t, raw);
        },
        _ => {},
    }
}

/// A pass is searched from the other side, one ply on, three plies and a third of the depth
/// shallower, with a window of width one that asks whether `beta` is held; the cut mark turns.
pub proof fn law_pass_is_searched(n: NodeView, t: ThreadView, pos: Position)
    requires
        t.wf(),
        n.wf(t.scale),
        n.core.phase is NullMake,
    ensures
        ({
            let p = n.core.params;
            let step = search::next(n, t, Reply::Reached(pos));
            &&& step.thread == t
            &&& step.node.core.phase is NullChild
            &&& only_waits(n, step.node)
            &&& step.out matches Outcome::Search(c, at) && at == pos && !c.kind.root && !c.kind.pv && c.ply == p.ply + 1
                && c.alpha.0 == -p.beta.0 && c.beta.0 == 1 - p.beta.0 && c.cutnode != p.cutnode && c.depth == p.depth - 3
                - p.depth / 3
        }),
{
    reveal(search::next);
}

/// A pass is taken back with the score of the other side turned around. It ends the node with
/// `beta` exactly if the other side got no more than `-beta`; with the search to end it ends
/// the node with zero; otherwise the moves come next.
pub proof fn law_pass_is_judged(n: NodeView, m: NodeView, t: ThreadView, s: Score)
    requires
        t.wf(),
        n.wf(t.scale),
        m.wf(t.scale),
        t.scale.holds(s),
        n.core.phase is NullChild,
        m == search::next(n, t, Reply::Child(s)).node,
    ensures
        search::next(n, t, Reply::Child(s)).out == Outcome::Ask(Query::UnmakeNull),
        search::next(n, t, Reply::Child(s)).thread == t,
        only_waits(n, m),
        m.core.phase matches Phase::NullUnmake(back) && back.0 == -s.0,
        ({
            let step = search::next(m, t, Reply::Done);
            &&& step.thread == t
            &&& t.abort_now ==> step.out == Outcome::Done(Score(0))
            &&& !t.abort_now && s.0 <= -n.core.params.beta.0 ==> step.out == Outcome::Done(n.core.params.beta)
            &&& !t.abort_now && s.0 > -n.core.params.beta.0 ==> (step.out matches Outcome::Ask(Query::OpenPicker(_)))
                && step.node.core.phase is Picker && only_waits(n, step.node)
        }),
{
    reveal(search::next);
    reveal(search::null_done);
}

/// With a picker there, the node asks for a move.
pub proof fn law_picker_is_used(n: NodeView, t: ThreadView)
    requires
        n.core.phase is Picker,
    ensures
        ({
            let step = search::next(n, t, Reply::Done);
            step.out == Outcome::Ask(Query::NextMove) && step.thread == t && step.node.core.phase is Next
                && only_waits(n, step.node)
        }),
{
    reveal(search::next);
}

/// A move that is left out is passed over; any other move has its reduction looked up by its
/// kind, the depth and the number of moves seen.
pub proof fn law_move_is_picked(n: NodeView, t: ThreadView, pick: Pick)
    requires
        n.core.phase is Next,
    ensures
        ({
            let step = search::next(n, t, Reply::Move(Some(pick)));
            &&& step.thread == t
            &&& only_waits(n, step.node)
            &&& n.core.singular == Some(pick.mv) ==> step.out == Outcome::Ask(Query::NextMove)
                && step.node.core.phase is Next
            &&& n.core.singular != Some(pick.mv) ==> step.node.core.phase == Phase::Reduce(pick) && (
            step.out matches Outcome::Ask(Query::Reduction { tactic, depth, moves_seen }) && tactic == pick.mv.tactic
                && depth == n.core.params.depth as u8 && moves_seen == n.core.moves_seen)
        }),
{
    reveal(search::next);
    reveal(search::picked);
}

/// At the root, and as long as all is lost, no move is pruned: it goes on like one whose
/// exchange is good enough. Elsewhere a tactical move is looked at off the principal variation,
/// at ten plies or fewer, once the good ones are through: it must not lose more than 60 a ply.
/// Quiet moves are given up for good if as many moves were seen as the square of the plies left
/// and four more, half of that where the side to move is not improving; or, off the principal
/// variation and out of check with at most eight plies left, if the evaluation lies 100 and 80
/// a ply below the window; or, at five plies or fewer, if the tables think less of the move
/// than -2000 a ply. Given up or not, this quiet move itself goes on in the same way.
pub proof fn law_move_is_pruned(n: NodeView, t: ThreadView, pick: Pick, lmr: i16)
    requires
        t.wf(),
        n.wf(t.scale),
        n.core.phase == Phase::Reduce(pick),
    ensures
        ({
            let p = n.core.params;
            let c = n.core;
            let step = search::next(n, t, Reply::Reduction(lmr));
            let trial = Trial { mv: pick.mv, lmr, extension: 0 };
            let good = search::next(
                NodeView { core: Core { phase: Phase::See(trial), ..n.core }, ..n },
                t,
                Reply::See(true),
            );
            let quiet = search::next(
                NodeView { core: Core { phase: Phase::Skip(trial), ..n.core }, ..n },
                t,
                Reply::Done,
            );
            let spared = p.kind.root || c.best_score.0 < -t.scale.nomate;
            let left: int = if p.depth >= lmr {
                p.depth - lmr
            } else {
                0
            };
            let late = if c.improving {
                c.moves_seen >= 4 + left * left
            } else {
                2 * c.moves_seen >= 4 + left * left
            };
            let hopeless = !p.kind.pv && !c.pos.board.in_check && left <= 8 && c.static_eval.0 + 100 + 80 * left
                <= c.alpha.0;
            let disliked = p.depth <= 5 && t.tables.score_quiet(c.pos, pick.mv) + 2000 * left < 0;
            &&& spared ==> step == good
            &&& !spared && pick.mv.tactic ==> {
                if !p.kind.pv && p.depth <= 10 && pick.past_good_tactics {
                    &&& step.thread == t && only_waits(n, step.node) && step.node.core.phase == Phase::See(trial)
                    &&& step.out matches Outcome::Ask(Query::See { mv, margin }) && mv == pick.mv && margin == -60
                        * p.depth
                } else {
                    step == good
                }
            }
            &&& !spared && !pick.mv.tactic ==> {
                if !pick.no_more_quiets && (late || hopeless || disliked) {
                    step.out == Outcome::Ask(Query::SkipQuiets) && step.node.core.phase == Phase::Skip(trial)
                        && step.thread == t && only_waits(n, step.node)
                } else {
                    step == quiet
                }
            }
        }),
{
    reveal(search::next);
    reveal(search::reduced);
    reveal(search::quiet_see);
    reveal(search::consider);
}

/// A quiet move has its exchange looked at off the principal variation if ten plies or fewer
/// are left of it: it must not lose more than 100 for each of them. Otherwise it goes on like
/// one whose exchange is good enough.
pub proof fn law_quiet_move_goes_on(n: NodeView, t: ThreadView, trial: Trial)
    requires
        t.wf(),
        n.wf(t.scale),
        n.core.phase == Phase::Skip(trial),
    ensures
        ({
            let step = search::next(n, t, Reply::Done);
            let good = search::next(
                NodeView { core: Core { phase: Phase::See(trial), ..n.core }, ..n },
                t,
                Reply::See(true),
            );
            let left: int = if n.core.params.depth >= trial.lmr {
                n.core.params.depth - trial.lmr
            } else {
                0
            };
            &&& !n.core.params.kind.pv && left <= 10 ==> {
                &&& step.thread == t && only_waits(n, step.node) && step.node.core.phase == Phase::See(trial)
                &&& step.out matches Outcome::Ask(Query::See { mv, margin }) && mv == trial.mv && margin == -100 * left
            }
            &&& n.core.params.kind.pv || left > 10 ==> step == good
        }),
{
    reveal(search::next);
    reveal(search::quiet_see);
    reveal(search::consider);
}

/// A move whose exchange loses too much is dropped. Any other is made, unless it is to be
/// tested for being the only good one: below the root, with no move left out, from eight plies
/// on, and if it is the stored move of an entry that is at most three plies shallower and no
/// upper bound. The test searches the same position without the move, to half the depth, with a
/// window of width one that lies two points per ply below the stored score, or just above the
/// worst mate.
pub proof fn law_looked_at_move(n: NodeView, t: ThreadView, trial: Trial, good: bool)
    requires
        t.wf(),
        n.wf(t.scale),
        n.core.phase == Phase::See(trial),
    ensures
        ({
            let p = n.core.params;
            let step = search::next(n, t, Reply::See(good));
            let tested = !p.kind.root && n.core.singular is None && p.depth >= 8 && (n.core.entry matches Some(e) && e.mv
                == Some(trial.mv) && e.depth >= p.depth - 3 && e.flag != TTFlag::Upper);
            let stored = n.core.entry.unwrap().score.0;
            &&& only_waits(n, step.node)
            &&& !good ==> step.out == Outcome::Ask(Query::NextMove) && step.node.core.phase is Next && step.thread == t
            &&& good && !tested ==> step.node.core.phase == Phase::Make(trial) && step.out == Outcome::Ask(
                Query::MakeMove(trial.mv),
            ) && step.thread == t
            &&& good && tested ==> {
                &&& step.node.core.phase == Phase::Singular(trial)
                &&& only_marks(t, step.thread, p.ply, Some(trial.mv))
                &&& step.out matches Outcome::Search(c, at) && at == n.core.pos && !c.kind.root && !c.kind.pv && c.ply
                    == p.ply && c.depth == (p.depth - 1) / 2 && c.cutnode != p.cutnode && c.alpha.0 == c.beta.0 - 1
                    && c.beta.0 >= stored - 2 * p.depth && c.beta.0 > -t.scale.max_mate && (c.beta.0 == stored - 2
                    * p.depth || c.beta.0 == 1 - t.scale.max_mate)
            }
        }),
{
    reveal(search::next);
    reveal(search::consider);
}

/// A tested move is extended by a ply if all others stay below the bound of the test, by one
/// more off the principal variation if they stay 20 below `beta` too; it is shortened by a ply
/// if they do not and the stored score reaches `beta`. The mark is taken away, and the move is
/// made.
pub proof fn law_tested_move(n: NodeView, t: ThreadView, trial: Trial, others: Score)
    requires
        t.wf(),
        n.wf(t.scale),
        n.core.phase == Phase::Singular(trial),
        t.scale.holds(others),
    ensures
        ({
            let p = n.core.params;
            let step = search::next(n, t, Reply::Child(others));
            let stored = n.core.entry.unwrap().score.0;
            let bound: int = if stored - 2 * p.depth > 1 - t.scale.max_mate {
                stored - 2 * p.depth
            } else {
                1 - t.scale.max_mate
            };
            &&& only_waits(n, step.node)
            &&& only_marks(t, step.thread, p.ply, None)
            &&& step.out == Outcome::Ask(Query::MakeMove(trial.mv))
            &&& step.node.core.phase matches Phase::Make(then) && then.mv == trial.mv && then.lmr == trial.lmr
            &&& others.0 < bound && !p.kind.pv && others.0 + 20 < p.beta.0
                ==> step.node.core.phase->Make_0.extension == 2
            &&& others.0 < bound && (p.kind.pv || others.0 + 20 >= p.beta.0)
                ==> step.node.core.phase->Make_0.extension == 1
            &&& others.0 >= bound && stored >= p.beta.0 ==> step.node.core.phase->Make_0.extension == -1
            &&& others.0 >= bound && stored < p.beta.0 ==> step.node.core.phase->Make_0.extension == 0
        }),
{
    reveal(search::next);
    reveal(search::singled_out);
}

/// The first move of a node is searched to one ply less than the node, extended as the move
/// is, with the whole window turned around. A later one is first asked whether it comes above
/// `alpha`, at a depth that is reduced, but not below one ply unless the full depth is, nor
/// above the full depth; one ply less in a cut node.
pub proof fn law_made_move_is_searched(n: NodeView, t: ThreadView, trial: Trial, pos: Position)
    requires
        t.wf(),
        n.wf(t.scale),
        n.core.phase == Phase::Make(trial),
    ensures
        ({
            let p = n.core.params;
            let step = search::next(n, t, Reply::Reached(pos));
            let full = p.depth + trial.extension - 1;
            let wanted: int = if full - trial.lmr > 1 {
                full - trial.lmr
            } else {
                1
            };
            let reduced: int = if wanted < full {
                wanted
            } else {
                full
            };
            &&& step.thread == t && only_waits(n, step.node)
            &&& step.out matches Outcome::Search(c, at) && at == pos && c.ply == p.ply + 1 && !c.kind.root && c.beta.0
                == -n.core.alpha.0
            &&& n.core.moves_seen == 0 ==> step.node.core.phase == Phase::Full(trial) && (
            step.out matches Outcome::Search(c, _) && c.depth == full && c.kind.pv == p.kind.pv && c.alpha.0
                == -p.beta.0 && !c.cutnode)
            &&& n.core.moves_seen > 0 ==> step.node.core.phase == Phase::Scout(trial, pos) && (
            step.out matches Outcome::Search(c, _) && c.depth == (if p.cutnode {
                reduced - 1
            } else {
                reduced
            }) && !c.kind.pv && c.alpha.0 == -n.core.alpha.0 - 1 && c.cutnode)
        }),
{
    reveal(search::next);
    reveal(search::made);
}

/// A move that came above `alpha` at a reduced depth is asked again at the full one, with the
/// cut mark turned. On the principal variation one that still does is searched with the whole
/// window. Whatever search comes last gives the score, turned around, and the move is taken
/// back.
pub proof fn law_scouted_move(n: NodeView, t: ThreadView, trial: Trial, pos: Position, child: Score)
    requires
        t.wf(),
        n.wf(t.scale),
        t.scale.holds(child),
        n.core.phase == Phase::Scout(trial, pos) || n.core.phase == Phase::Research(trial, pos) || n.core.phase
            == Phase::Full(trial),
    ensures
        ({
            let p = n.core.params;
            let step = search::next(n, t, Reply::Child(child));
            let full = p.depth + trial.extension - 1;
            let above = -child.0 > n.core.alpha.0;
            let again = n.core.phase is Scout && trial.lmr > 0 && above;
            let whole = !(n.core.phase is Full) && !again && p.kind.pv && above;
            &&& step.thread == t && only_waits(n, step.node)
            &&& again ==> step.node.core.phase == Phase::Research(trial, pos) && (step.out matches Outcome::Search(c, at)
                && at == pos && c.ply == p.ply + 1 && c.depth == full && !c.kind.root && !c.kind.pv && c.alpha.0
                == -n.core.alpha.0 - 1 && c.beta.0 == -n.core.alpha.0 && c.cutnode == !p.cutnode)
            &&& whole ==> step.node.core.phase == Phase::Full(trial) && (step.out matches Outcome::Search(c, at) && at
                == pos && c.ply == p.ply + 1 && c.depth == full && !c.kind.root && c.kind.pv && c.alpha.0 == -p.beta.0
                && c.beta.0 == -n.core.alpha.0 && !c.cutnode)
            &&& !again && !whole ==> step.out == Outcome::Ask(Query::UnmakeMove) && (
            step.node.core.phase matches Phase::Unmake(then, score) && then == trial && score.0 == -child.0)
        }),
{
    reveal(search::next);
    reveal(search::scouted);
    reveal(search::looked);
}

/// A move that was taken back counts, unless the search is to end: the best score is the best
/// of all, `alpha` and the best move follow a score above `alpha`, and the flag tells an exact
/// score above `alpha` from one that reached `beta`. On the principal variation a move that
/// comes above `alpha`, and at the root the first one anyway, becomes the line of the node with
/// the line of its child behind it. One that reaches `beta` teaches the tables, and the node
/// goes on as if no move were left. Any other that is not the best so far is remembered by its
/// kind, for a later cutoff to hold against it.
pub proof fn law_move_counts(n: NodeView, t: ThreadView, trial: Trial, score: Score)
    requires
        t.wf(),
        n.wf(t.scale),
        n.core.phase == Phase::Unmake(trial, score),
    ensures
        ({
            let c = n.core;
            let p = c.params;
            let ply = p.ply as int;
            let step = search::next(n, t, Reply::Done);
            let then = step.node.core;
            let above = score.0 > c.alpha.0;
            let leads = p.kind.pv && above || p.kind.root && c.moves_seen == 0;
            let stack = if leads {
                t.stack.update(ply, EntryView { pv: seq![trial.mv] + t.stack[ply + 1].pv, ..t.stack[ply] })
            } else {
                t.stack
            };
            let best = above || c.best_move == Some(trial.mv);
            &&& t.abort_now ==> step.out == Outcome::Done(Score(0)) && step.thread == t
            &&& !t.abort_now ==> (step.out is Overrun <==> leads && p.ply >= MAX_PLY)
            &&& !t.abort_now && !(step.out is Overrun) ==> {
                &&& then.best_score == if score.0 > c.best_score.0 {
                    score
                } else {
                    c.best_score
                }
                &&& then.alpha == if above {
                    score
                } else {
                    c.alpha
                }
                &&& then.best_move == if above {
                    Some(trial.mv)
                } else {
                    c.best_move
                }
                &&& then.flag == if score.0 >= p.beta.0 {
                    TTFlag::Lower
                } else if above {
                    TTFlag::Exact
                } else {
                    c.flag
                }
                &&& then.moves_seen == if c.moves_seen < u32::MAX {
                    c.moves_seen + 1
                } else {
                    c.moves_seen as int
                }
                &&& then == (Core {
                    phase: then.phase,
                    best_score: then.best_score,
                    alpha: then.alpha,
                    best_move: then.best_move,
                    flag: then.flag,
                    moves_seen: then.moves_seen,
                    ..c
                })
                &&& score.0 >= p.beta.0 ==> {
                    &&& step.node.quiets == n.quiets && step.node.tactics == n.tactics
                    &&& step.thread == (ThreadView {
                        stack,
                        tables: t.tables.update(c.pos, trial.mv, n.quiets, n.tactics, p.depth as int),
                        ..t
                    })
                    &&& step == search::next(
                        NodeView { core: Core { phase: Phase::Next, ..then }, ..step.node },
                        step.thread,
                        Reply::Move(None),
                    )
                }
                &&& score.0 < p.beta.0 ==> {
                    &&& step.out == Outcome::Ask(Query::NextMove) && then.phase is Next
                    &&& step.thread == (ThreadView { stack, ..t })
                    &&& step.node.tactics == if !best && trial.mv.tactic {
                        n.tactics.push(trial.mv)
                    } else {
                        n.tactics
                    }
                    &&& step.node.quiets == if !best && !trial.mv.tactic {
                        n.quiets.push(trial.mv)
                    } else {
                        n.quiets
                    }
                }
            }
        }),
{
    reveal(search::next);
    reveal(search::tried);
    reveal(search::picked);
}

/// With no move left, the node is stored with what it found, unless it left a move out: then
/// it ends.
pub proof fn law_moves_are_through(n: NodeView, t: ThreadView)
    requires
        n.core.phase is Next,
    ensures
        ({
            let c = n.core;
            let step = search::next(n, t, Reply::Move(None));
            &&& step.thread == t && only_waits(n, step.node)
            &&& c.singular is Some ==> step.out == Outcome::Done(c.best_score)
            &&& c.singular is None ==> step.node.core.phase is Store && (step.out matches Outcome::Ask(Query::Store(s))
                && s.hash == c.pos.board.hash && s.depth == c.params.depth as u8 && s.ply == c.params.ply && s.eval
                == c.raw_eval && s.score == c.best_score && s.mv == c.best_move && s.flag == c.flag && s.pv)
        }),
{
    reveal(search::next);
    reveal(search::picked);
}

/// A stored node ends with its best score. Out of check it teaches the correction tables how
/// far its evaluation was off, unless its best move is one that is not quiet, or its score is
/// a bound that does not contradict the evaluation.
pub proof fn law_stored_node_ends(n: NodeView, t: ThreadView)
    requires
        n.core.phase is Store,
    ensures
        ({
            let c = n.core;
            let step = search::next(n, t, Reply::Done);
            let telling = c.flag == TTFlag::Exact || c.flag == TTFlag::Lower && c.best_score.0 > c.static_eval.0
                || c.flag == TTFlag::Upper && c.best_score.0 < c.static_eval.0;
            let teaches = !c.pos.board.in_check && c.singular is None && telling && (c.best_move matches Some(mv)
                ==> mv.quiet);
            &&& step.out == Outcome::Done(c.best_score)
            &&& teaches ==> step.thread == (ThreadView {
                tables: t.tables.update_corr(
                    c.pos.board,
                    c.params.depth as int,
                    c.best_score.0 as int,
                    c.static_eval.0 as int,
                ),
                ..t
            })
            &&& !teaches ==> step.thread == t
        }),
{
    reveal(search::next);
    reveal(search::conclude);
}

/// What the quiescence search of its position scores, a node without depth scores.
pub proof fn law_quiescence_score_is_handed_on(n: NodeView, t: ThreadView, s: Score)
    requires
        n.core.phase is Quiesce,
    ensures
        search::next(n, t, Reply::Child(s)).out == Outcome::Done(s),
        search::next(n, t, Reply::Child(s)).thread == t,
{
    reveal(search::next);
}

/// Which replies a node takes: those to what it waits for, with scores that lie on the scale,
/// moves that start from a piece on the board, and positions whose last move lies on it.
pub proof fn law_replies_that_are_taken(n: NodeView, t: ThreadView, reply: Reply)
    ensures
        ({
            let on_scale = |s: Score| -t.scale.infinite <= s.0 <= t.scale.infinite;
            let taken = match reply {
                Reply::Done => n.core.phase is NullUnmake || n.core.phase is Picker || n.core.phase is Skip
                    || n.core.phase is Unmake || n.core.phase is Store,
                Reply::Stop(_) => n.core.phase is Entry,
                Reply::Entry(e) => n.core.phase is Probe && (e matches Some(e) ==> on_scale(e.score)),
                Reply::Eval(_) => n.core.phase is Evaluate,
                Reply::Reached(p) => (n.core.phase is NullMake || n.core.phase is Make) && (p.prev matches Some(m)
                    ==> m.1.from < 64 && m.1.to < 64),
                Reply::Move(m) => n.core.phase is Next && (m matches Some(m) ==> m.mv.from < 64 && m.mv.to < 64
                    && n.core.pos.board.pieces@[m.mv.from as int] is Some),
                Reply::Reduction(_) => n.core.phase is Reduce,
                Reply::See(_) => n.core.phase is See,
                Reply::Child(s) => on_scale(s) && (n.core.phase is NullChild || n.core.phase is Singular
                    || n.core.phase is Scout || n.core.phase is Research || n.core.phase is Full
                    || n.core.phase is Quiesce),
            };
            n.answered_by(t.scale, reply) == taken
        }),
{
}

} // verus!
