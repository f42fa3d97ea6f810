//! What holds of every step of the main search.
use vstd::prelude::*;

use crate::board::{Move, Position};
use crate::decisions;
use crate::history::Tables;
use crate::limits::MAX_PLY;
use crate::node::{Outcome, Params, Pick, Query, Reply, TTEntry, TTFlag};
use crate::score::{Score, ScoreScale};
use crate::search;
use crate::search::{Core, NodeView, Phase, Step, Trial};
use crate::thread::ThreadView;

verus! {

/// The step follows from the node: the node stays the node of its parameters and
/// position, its best score and `alpha` only rise, what it makes it takes back, a child
/// is searched one ply further if a move was made and at the same ply otherwise, with a
/// window of width one unless it is the full search of a move, a node that has the search
/// end ends with zero, and of the thread the step touches only the node's own entry of the
/// stack and the tables. Off the principal variation it leaves every line alone.
pub open spec fn orderly(n: NodeView, t: ThreadView, step: Step) -> bool {
    let ply = n.core.params.ply;
    &&& step.node.core.params == n.core.params
    &&& step.node.core.pos == n.core.pos
    &&& step.node.core.alpha.0 >= n.core.alpha.0
    &&& step.node.core.best_score.0 >= n.core.best_score.0
    &&& step.node.core.moves_seen >= n.core.moves_seen
    &&& crate::node::carried_out(n.made(), step.out, step.node.made())
    &&& step.node.awaits_child() == (step.out is Search || step.out is Quiesce)
    &&& step.out matches Outcome::Search(params, _) ==> params.ply == ply + crate::node::plies(step.node.made())
    &&& step.out matches Outcome::Quiesce(params, _) ==> params.ply == ply + crate::node::plies(step.node.made())
    &&& step.out matches Outcome::Search(params, _) ==> step.node.core.phase is Full || params.beta.0
        == params.alpha.0 + 1
    &&& !n.core.params.kind.pv ==> step.thread.stack[ply as int].pv == t.stack[ply as int].pv
    &&& t.abort_now ==> step.thread.abort_now
    &&& step.thread.abort_now && !t.abort_now ==> step.out == Outcome::Done(Score(0))
    &&& step.thread.sel_depth >= t.sel_depth
    &&& step.thread.stack.len() == t.stack.len()
    &&& forall|i: int| 0 <= i < t.stack.len() && i != ply ==> #[trigger] step.thread.stack[i] == t.stack[i]
    &&& step.thread == (ThreadView {
        abort_now: step.thread.abort_now,
        nodes: step.thread.nodes,
        sel_depth: step.thread.sel_depth,
        stack: step.thread.stack,
        tables: step.thread.tables,
        ..t
    })
}

/// What the flag of a node with a proper window says is so: an upper bound means that
/// no move came above the window, an exact score lies within it and is that of the best
/// move, and a lower bound reached its upper end.
pub open spec fn honest(n: NodeView) -> bool {
    let c = n.core;
    let p = c.params;
    p.alpha.0 < p.beta.0 ==> match c.flag {
        TTFlag::Upper => c.alpha == p.alpha && c.best_score.0 <= p.alpha.0 && c.best_move is None,
        TTFlag::Exact => c.alpha == c.best_score && p.alpha.0 < c.best_score.0 < p.beta.0 && c.best_move is Some,
        TTFlag::Lower => (c.phase is Store || c.phase is Over) && c.alpha == c.best_score && c.best_score.0
            >= p.beta.0 && c.best_move is Some,
    }
}

/// A step of an honest node with a proper window: the node stays honest, children get
/// proper windows, and what is stored is what the flag says.
pub open spec fn stays_honest(n: NodeView, step: Step) -> bool {
    honest(n) && n.core.params.alpha.0 < n.core.params.beta.0 ==> {
        &&& honest(step.node)
        &&& step.out matches Outcome::Search(params, _) ==> params.alpha.0 < params.beta.0
        &&& step.out matches Outcome::Quiesce(params, _) ==> params.alpha.0 < params.beta.0
        &&& step.out matches Outcome::Ask(Query::Store(store)) ==> store == search::stored(step.node.core)
    }
}

/// What a step leaves behind is sound: the thread is well-formed, a waiting node is
/// well-formed, a child gets parameters and a position that it can be started with,
/// and a score lies on the scale.
pub open spec fn sound(step: Step, scale: ScoreScale) -> bool {
    &&& step.thread.wf()
    &&& step.thread.scale == scale
    &&& match step.out {
        Outcome::Ask(_) => step.node.wf(scale),
        Outcome::Search(params, pos) => step.node.wf(scale) && params.wf(scale) && pos.wf(),
        Outcome::Quiesce(params, pos) => step.node.wf(scale) && params.wf(scale) && pos.wf(),
        Outcome::Done(score) => scale.holds(score),
        Outcome::Overrun => true,
    }
}

proof fn lemma_enter_sound(n: NodeView, t: ThreadView)
    requires
        t.wf(),
        n.core.phase is Entry,
        n.wf(t.scale),
    ensures
        sound(search::enter(n, t), t.scale),
        orderly(n, t, search::enter(n, t)),
        stays_honest(n, search::enter(n, t)),
{
    reveal(search::enter);
    let p = n.core.params;
    let t1 = search::visited(t, p);
    if !(p.kind.pv && p.ply > MAX_PLY) {
        assert(t1.wf());
    }
}

proof fn lemma_evaluated_sound(n: NodeView, t: ThreadView, raw_eval: Score)
    requires
        t.wf(),
        n.wf(t.scale),
        n.inside(),
        n.made() is None,
        !(n.core.phase is Store),
        n.core.alpha.0 < t.scale.infinite,
    ensures
        sound(search::evaluated(n, t, raw_eval), t.scale),
        orderly(n, t, search::evaluated(n, t, raw_eval)),
        stays_honest(n, search::evaluated(n, t, raw_eval)),
{
    reveal(search::evaluated);
    let static_eval = decisions::spec_static_eval(t.scale, raw_eval, t.tables.corr(n.core.pos.board));
    assert(t.with_static_eval(n.core.params.ply, static_eval).wf());
}

proof fn lemma_probed_sound(n: NodeView, t: ThreadView, entry: Option<TTEntry>)
    requires
        t.wf(),
        n.wf(t.scale),
        n.core.phase is Probe,
        entry matches Some(e) ==> t.scale.holds(e.score),
    ensures
        sound(search::probed(n, t, entry), t.scale),
        orderly(n, t, search::probed(n, t, entry)),
        stays_honest(n, search::probed(n, t, entry)),
{
    reveal(search::probed);
    if let Some(e) = entry {
        lemma_evaluated_sound(NodeView { core: Core { entry, ..n.core }, ..n }, t, e.eval);
    }
}

proof fn lemma_null_done_sound(n: NodeView, t: ThreadView, score: Score)
    requires
        t.wf(),
        n.wf(t.scale),
        n.core.phase is NullUnmake,
    ensures
        sound(search::null_done(n, t, score), t.scale),
        orderly(n, t, search::null_done(n, t, score)),
        stays_honest(n, search::null_done(n, t, score)),
{
    reveal(search::null_done);
}

proof fn lemma_picked_sound(n: NodeView, t: ThreadView, pick: Option<Pick>)
    requires
        t.wf(),
        n.wf(t.scale),
        n.core.phase is Next,
        pick matches Some(p) ==> search::move_ok(n.core.pos.board, p.mv),
    ensures
        sound(search::picked(n, t, pick), t.scale),
        orderly(n, t, search::picked(n, t, pick)),
        stays_honest(n, search::picked(n, t, pick)),
{
    reveal(search::picked);
}

proof fn lemma_consider_sound(n: NodeView, t: ThreadView, trial: Trial)
    requires
        t.wf(),
        n.wf(t.scale),
        n.inside(),
        n.made() is None,
        !(n.core.phase is Store),
        n.core.alpha.0 < t.scale.infinite,
        search::trial_ok(n.core.pos.board, trial),
    ensures
        sound(search::consider(n, t, trial), t.scale),
        orderly(n, t, search::consider(n, t, trial)),
        stays_honest(n, search::consider(n, t, trial)),
{
    reveal(search::consider);
    assert(t.with_singular(n.core.params.ply, Some(trial.mv)).wf());
}

proof fn lemma_quiet_see_sound(n: NodeView, t: ThreadView, trial: Trial)
    requires
        t.wf(),
        n.wf(t.scale),
        n.inside(),
        n.made() is None,
        !(n.core.phase is Store),
        n.core.alpha.0 < t.scale.infinite,
        search::trial_ok(n.core.pos.board, trial),
    ensures
        sound(search::quiet_see(n, t, trial), t.scale),
        orderly(n, t, search::quiet_see(n, t, trial)),
        stays_honest(n, search::quiet_see(n, t, trial)),
{
    reveal(search::quiet_see);
    lemma_consider_sound(n, t, trial);
}

proof fn lemma_reduced_sound(n: NodeView, t: ThreadView, pick: Pick, lmr: i16)
    requires
        t.wf(),
        n.wf(t.scale),
        n.core.phase == Phase::Reduce(pick),
    ensures
        sound(search::reduced(n, t, pick, lmr), t.scale),
        orderly(n, t, search::reduced(n, t, pick, lmr)),
        stays_honest(n, search::reduced(n, t, pick, lmr)),
{
    reveal(search::reduced);
    let trial = Trial { mv: pick.mv, lmr, extension: 0 };
    lemma_consider_sound(n, t, trial);
    lemma_quiet_see_sound(n, t, trial);
}

proof fn lemma_singled_out_sound(n: NodeView, t: ThreadView, trial: Trial, score: Score)
    requires
        t.wf(),
        n.wf(t.scale),
        n.core.phase == Phase::Singular(trial),
    ensures
        sound(search::singled_out(n, t, trial, score), t.scale),
        orderly(n, t, search::singled_out(n, t, trial, score)),
        stays_honest(n, search::singled_out(n, t, trial, score)),
{
    reveal(search::singled_out);
    assert(t.with_singular(n.core.params.ply, None).wf());
}

proof fn lemma_made_sound(n: NodeView, t: ThreadView, trial: Trial, pos: Position)
    requires
        t.wf(),
        n.wf(t.scale),
        n.core.phase == Phase::Make(trial),
        pos.wf(),
    ensures
        sound(search::made(n, t, trial, pos), t.scale),
        orderly(n, t, search::made(n, t, trial, pos)),
        stays_honest(n, search::made(n, t, trial, pos)),
{
    reveal(search::made);
}

proof fn lemma_looked_sound(n: NodeView, t: ThreadView, trial: Trial, pos: Position, score: Score)
    requires
        t.wf(),
        n.wf(t.scale),
        n.core.phase == Phase::Scout(trial, pos) || n.core.phase == Phase::Research(trial, pos),
        t.scale.holds(score),
    ensures
        sound(search::looked(n, t, trial, pos, score), t.scale),
        orderly(n, t, search::looked(n, t, trial, pos, score)),
        stays_honest(n, search::looked(n, t, trial, pos, score)),
{
    reveal(search::looked);
}

proof fn lemma_scouted_sound(n: NodeView, t: ThreadView, trial: Trial, pos: Position, score: Score)
    requires
        t.wf(),
        n.wf(t.scale),
        n.core.phase == Phase::Scout(trial, pos),
        t.scale.holds(score),
    ensures
        sound(search::scouted(n, t, trial, pos, score), t.scale),
        orderly(n, t, search::scouted(n, t, trial, pos, score)),
        stays_honest(n, search::scouted(n, t, trial, pos, score)),
{
    reveal(search::scouted);
    lemma_looked_sound(n, t, trial, pos, score);
}

proof fn lemma_tried_sound(n: NodeView, t: ThreadView, trial: Trial, score: Score)
    requires
        t.wf(),
        n.wf(t.scale),
        n.core.phase == Phase::Unmake(trial, score),
    ensures
        sound(search::tried(n, t, trial, score), t.scale),
        orderly(n, t, search::tried(n, t, trial, score)),
        stays_honest(n, search::tried(n, t, trial, score)),
{
    reveal(search::tried);
    let p = n.core.params;
    let mv = trial.mv;
    if p.ply < MAX_PLY {
        let t1 = t.with_line(p.ply, mv);
        assert(t.stack[p.ply + 1].pv.len() <= MAX_PLY - (p.ply + 1));
        assert(t1.wf());
    }
    assert(crate::board::all_on_board(n.quiets));
    assert(crate::board::all_on_board(n.tactics));
    crate::history::law_update_keeps_bounds(
        t.tables,
        n.core.pos,
        mv,
        n.quiets,
        n.tactics,
        p.depth as int,
    );
}

proof fn lemma_conclude_sound(n: NodeView, t: ThreadView)
    requires
        t.wf(),
        n.wf(t.scale),
        n.core.phase is Store,
    ensures
        sound(search::conclude(n, t), t.scale),
        orderly(n, t, search::conclude(n, t)),
        stays_honest(n, search::conclude(n, t)),
{
    reveal(search::conclude);
    crate::history::law_update_corr_keeps_bounds(
        t.tables,
        n.core.pos.board,
        n.core.params.depth as int,
        n.core.best_score.0 as int,
        n.core.static_eval.0 as int,
    );
}

/// Every node is started sound and honest, with nothing made.
pub proof fn law_begin_is_sound(params: Params, pos: Position, t: ThreadView)
    requires
        t.wf(),
        pos.wf(),
        params.wf(t.scale),
    ensures
        sound(search::begin(params, pos, t), t.scale),
        orderly(search::fresh(params, pos, t.scale), t, search::begin(params, pos, t)),
        honest(search::begin(params, pos, t).node),
{
    lemma_enter_sound(search::fresh(params, pos, t.scale), t);
}

/// Every step keeps what is known of nodes and threads, whatever the reply was, and
/// never hands a child, or its parent, anything off the scale.
pub proof fn law_step_is_sound(n: NodeView, t: ThreadView, reply: Reply)
    requires
        t.wf(),
        n.wf(t.scale),
        n.answered_by(t.scale, reply),
    ensures
        sound(search::next(n, t, reply), t.scale),
        orderly(n, t, search::next(n, t, reply)),
        stays_honest(n, search::next(n, t, reply)),
{
    reveal(search::next);
    match (n.core.phase, reply) {
        (Phase::Entry, Reply::Stop(_)) => lemma_enter_sound(n, t),
        (Phase::Probe, Reply::Entry(entry)) => lemma_probed_sound(n, t, entry),
        (Phase::Evaluate, Reply::Eval(eval)) => lemma_evaluated_sound(n, t, eval),
        (Phase::NullUnmake(score), Reply::Done) => lemma_null_done_sound(n, t, score),
        (Phase::Next, Reply::Move(pick)) => lemma_picked_sound(n, t, pick),
        (Phase::Reduce(pick), Reply::Reduction(lmr)) => lemma_reduced_sound(n, t, pick, lmr),
        (Phase::Skip(trial), Reply::Done) => lemma_quiet_see_sound(n, t, trial),
        (Phase::See(trial), Reply::See(_)) => lemma_consider_sound(n, t, trial),
        (Phase::Singular(trial), Reply::Child(s)) => lemma_singled_out_sound(n, t, trial, s),
        (Phase::Make(trial), Reply::Reached(pos)) => lemma_made_sound(n, t, trial, pos),
        (Phase::Scout(trial, pos), Reply::Child(s)) => lemma_scouted_sound(
            n,
            t,
            trial,
            pos,
            crate::score::flip(s),
        ),
        (Phase::Research(trial, pos), Reply::Child(s)) => lemma_looked_sound(
            n,
            t,
            trial,
            pos,
            crate::score::flip(s),
        ),
        (Phase::Unmake(trial, score), Reply::Done) => lemma_tried_sound(n, t, trial, score),
        (Phase::Store, Reply::Done) => lemma_conclude_sound(n, t),
        _ => {},
    }
}

/// What a node with a proper window tells the transposition table is true: an upper
/// bound is not above the window, an exact score lies within it and has a move, and a
/// lower bound has reached its upper end with a move.
pub proof fn law_stored_flag_is_true(n: NodeView, t: ThreadView, reply: Reply)
    requires
        t.wf(),
        n.wf(t.scale),
        n.answered_by(t.scale, reply),
        honest(n),
        n.core.params.alpha.0 < n.core.params.beta.0,
    ensures
        search::next(n, t, reply).out matches Outcome::Ask(Query::Store(store)) ==> {
            &&& store.hash == n.core.pos.board.hash
            &&& store.ply == n.core.params.ply
            &&& match store.flag {
                TTFlag::Upper => store.score.0 <= n.core.params.alpha.0 && store.mv is None,
                TTFlag::Exact => n.core.params.alpha.0 < store.score.0 < n.core.params.beta.0 && store.mv is Some,
                TTFlag::Lower => store.score.0 >= n.core.params.beta.0 && store.mv is Some,
            }
        },
{
    law_step_is_sound(n, t, reply);
}

/// Once the search is to end, a new node other than the root ends at once, and a node
/// that comes back from a move or a pass ends with nothing learned.
pub proof fn law_abort_ends_nodes(params: Params, pos: Position, n: NodeView, t: ThreadView)
    requires
        t.abort_now,
        !params.kind.root,
        n.core.phase is Unmake || n.core.phase is NullUnmake,
    ensures
        search::begin(params, pos, t).out == Outcome::Done(Score(0)),
        search::begin(params, pos, t).thread == t,
        search::next(n, t, Reply::Done).out == Outcome::Done(Score(0)),
        search::next(n, t, Reply::Done).thread == t,
{
    reveal(search::next);
    reveal(search::tried);
    reveal(search::null_done);
}

/// A node that is told that the time is up ends, and has every other node end too.
pub proof fn law_stop_aborts(n: NodeView, t: ThreadView)
    requires
        n.core.phase is Entry,
    ensures
        search::next(n, t, Reply::Stop(true)).out == Outcome::Done(Score(0)),
        search::next(n, t, Reply::Stop(true)).thread == t.aborted(),
{
    reveal(search::next);
}

/// The move that is being tried is not the one that the search leaves out, and a search
/// that leaves one out is not being stored.
pub open spec fn avoids(n: NodeView) -> bool {
    let singular = n.core.singular;
    match n.core.phase {
        Phase::Reduce(pick) => singular != Some(pick.mv),
        Phase::Skip(trial) => singular != Some(trial.mv),
        Phase::See(trial) => singular != Some(trial.mv),
        Phase::Singular(trial) => singular != Some(trial.mv),
        Phase::Make(trial) => singular != Some(trial.mv),
        Phase::Scout(trial, _) => singular != Some(trial.mv),
        Phase::Research(trial, _) => singular != Some(trial.mv),
        Phase::Full(trial) => singular != Some(trial.mv),
        Phase::Unmake(trial, _) => singular != Some(trial.mv),
        Phase::Store => singular is None,
        _ => true,
    }
}

/// The correction tables are the same.
pub open spec fn same_corrections(a: Tables, b: Tables) -> bool {
    &&& a.pawn_corr == b.pawn_corr
    &&& a.minor_corr == b.minor_corr
    &&& a.major_corr == b.major_corr
    &&& a.white_nonpawn_corr == b.white_nonpawn_corr
    &&& a.black_nonpawn_corr == b.black_nonpawn_corr
}

/// The step keeps the move that the search leaves out, and leaves it out. If there is
/// one, the step stores nothing, corrects nothing, tests no move for being the only good
/// one, and does not pass.
pub open spec fn leaves_out(n: NodeView, t: ThreadView, step: Step) -> bool {
    &&& step.node.core.singular == n.core.singular
    &&& avoids(step.node)
    &&& n.core.singular matches Some(mv) ==> {
        &&& step.out != Outcome::Ask(Query::MakeMove(mv))
        &&& !(step.out matches Outcome::Ask(Query::Store(_)))
        &&& same_corrections(step.thread.tables, t.tables)
        &&& !(step.node.core.phase is Singular)
        &&& !(step.out matches Outcome::Ask(Query::MakeNull))
    }
}

proof fn lemma_evaluated_leaves_out(n: NodeView, t: ThreadView, raw_eval: Score)
    ensures
        leaves_out(n, t, search::evaluated(n, t, raw_eval)),
        n.core.singular is Some ==> search::evaluated(n, t, raw_eval).out is Ask,
{
    reveal(search::evaluated);
}

proof fn lemma_probed_leaves_out(n: NodeView, t: ThreadView, entry: Option<TTEntry>)
    ensures
        leaves_out(n, t, search::probed(n, t, entry)),
        n.core.singular is Some ==> search::probed(n, t, entry).out is Ask,
{
    reveal(search::probed);
    if let Some(e) = entry {
        lemma_evaluated_leaves_out(NodeView { core: Core { entry, ..n.core }, ..n }, t, e.eval);
    }
}

proof fn lemma_consider_leaves_out(n: NodeView, t: ThreadView, trial: Trial)
    requires
        n.core.singular != Some(trial.mv),
    ensures
        leaves_out(n, t, search::consider(n, t, trial)),
{
    reveal(search::consider);
}

proof fn lemma_quiet_see_leaves_out(n: NodeView, t: ThreadView, trial: Trial)
    requires
        n.core.singular != Some(trial.mv),
    ensures
        leaves_out(n, t, search::quiet_see(n, t, trial)),
{
    reveal(search::quiet_see);
    lemma_consider_leaves_out(n, t, trial);
}

proof fn lemma_reduced_leaves_out(n: NodeView, t: ThreadView, pick: Pick, lmr: i16)
    requires
        n.core.singular != Some(pick.mv),
    ensures
        leaves_out(n, t, search::reduced(n, t, pick, lmr)),
{
    reveal(search::reduced);
    let trial = Trial { mv: pick.mv, lmr, extension: 0 };
    lemma_consider_leaves_out(n, t, trial);
    lemma_quiet_see_leaves_out(n, t, trial);
}

proof fn lemma_looks_leave_out(n: NodeView, t: ThreadView, trial: Trial, pos: Position, score: Score)
    requires
        n.core.singular != Some(trial.mv),
    ensures
        leaves_out(n, t, search::made(n, t, trial, pos)),
        leaves_out(n, t, search::scouted(n, t, trial, pos, score)),
        leaves_out(n, t, search::looked(n, t, trial, pos, score)),
        leaves_out(n, t, search::singled_out(n, t, trial, score)),
{
    reveal(search::made);
    reveal(search::scouted);
    reveal(search::looked);
    reveal(search::singled_out);
}

proof fn lemma_tried_leaves_out(n: NodeView, t: ThreadView, trial: Trial, score: Score)
    ensures
        leaves_out(n, t, search::tried(n, t, trial, score)),
{
    reveal(search::tried);
}

/// A search that leaves a move out never makes that move, is not stored, does not teach the
/// correction tables, tests no move for being the only good one, and does not answer from
/// the table or without a look at the moves.
pub proof fn law_singular_search_leaves_its_move_out(n: NodeView, t: ThreadView, reply: Reply)
    requires
        n.answered_by(t.scale, reply),
        avoids(n),
        n.inside(),
    ensures
        leaves_out(n, t, search::next(n, t, reply)),
        n.core.singular is Some && (n.core.phase is Probe || n.core.phase is Evaluate) ==> search::next(
            n,
            t,
            reply,
        ).out is Ask,
{
    reveal(search::next);
    match (n.core.phase, reply) {
        (Phase::Probe, Reply::Entry(entry)) => lemma_probed_leaves_out(n, t, entry),
        (Phase::Evaluate, Reply::Eval(eval)) => lemma_evaluated_leaves_out(n, t, eval),
        (Phase::NullUnmake(score), Reply::Done) => {
            reveal(search::null_done);
        },
        (Phase::Next, Reply::Move(pick)) => {
            reveal(search::picked);
        },
        (Phase::Reduce(pick), Reply::Reduction(lmr)) => lemma_reduced_leaves_out(n, t, pick, lmr),
        (Phase::Skip(trial), Reply::Done) => lemma_quiet_see_leaves_out(n, t, trial),
        (Phase::See(trial), Reply::See(_)) => lemma_consider_leaves_out(n, t, trial),
        (Phase::Singular(trial), Reply::Child(s)) => lemma_looks_leave_out(n, t, trial, n.core.pos, s),
        (Phase::Make(trial), Reply::Reached(pos)) => lemma_looks_leave_out(n, t, trial, pos, Score(0)),
        (Phase::Scout(trial, pos), Reply::Child(s)) => lemma_looks_leave_out(
            n,
            t,
            trial,
            pos,
            crate::score::flip(s),
        ),
        (Phase::Research(trial, pos), Reply::Child(s)) => lemma_looks_leave_out(
            n,
            t,
            trial,
            pos,
            crate::score::flip(s),
        ),
        (Phase::Unmake(trial, score), Reply::Done) => lemma_tried_leaves_out(n, t, trial, score),
        (Phase::Store, Reply::Done) => {
            reveal(search::conclude);
        },
        _ => {},
    }
}

/// Every node that is entered looks at its moves with nothing tried yet, no move of its
/// own on a line, and the mark that it found at its ply: what the laws of its steps keep
/// holds from the start.
pub proof fn law_node_begins_in_order(params: Params, pos: Position, t: ThreadView)
    requires
        t.wf(),
        pos.wf(),
        params.wf(t.scale),
    ensures
        ({
            let n = search::fresh(params, pos, t.scale);
            let step = search::enter(n, t);
            &&& params.kind.root ==> search::begin(params, pos, t) == step
            &&& !params.kind.root && !t.abort_now ==> search::begin(params, pos, t).node == n && search::begin(
                params,
                pos,
                t,
            ).thread == t && search::next(n, t, Reply::Stop(false)) == step
            &&& step.node.inside() ==> {
                &&& honest(step.node)
                &&& avoids(step.node)
                &&& has_line(step.node, step.thread)
                &&& marked(step.node, step.thread)
                &&& step.node.core.singular == t.stack[params.ply as int].singular
            }
        }),
{
    reveal(search::next);
    reveal(search::enter);
}

/// Every move that the picker hands out at the root is searched; so is every move as
/// long as all moves before it have lost.
pub proof fn law_nothing_is_pruned_at_the_root_or_when_lost(n: NodeView, t: ThreadView, lmr: i16)
    requires
        t.wf(),
        n.wf(t.scale),
        n.core.phase is Reduce,
        n.core.params.kind.root || t.scale.spec_is_loss(n.core.best_score),
    ensures
        ({
            let step = search::next(n, t, Reply::Reduction(lmr));
            step.out == Outcome::Ask(Query::MakeMove(n.core.phase->Reduce_0.mv)) || step.node.core.phase
                == Phase::Singular(Trial { mv: n.core.phase->Reduce_0.mv, lmr, extension: 0 })
        }),
{
    reveal(search::next);
    reveal(search::reduced);
    reveal(search::consider);
}

/// A node on the principal variation always looks at its moves: neither the table nor
/// the evaluation ends it, and it does not pass.
pub proof fn law_pv_nodes_look_at_moves(n: NodeView, t: ThreadView, reply: Reply)
    requires
        n.core.params.kind.pv,
        n.core.phase is Probe || n.core.phase is Evaluate,
        n.answered_by(t.scale, reply),
    ensures
        search::next(n, t, reply).out matches Outcome::Ask(query) && (query is Evaluate || query is OpenPicker),
{
    reveal(search::next);
    reveal(search::probed);
    reveal(search::evaluated);
}

/// Only the full search of a move has a window wider than one: the looks that a later
/// move gets, the search after a pass and the search without a move do not.
pub proof fn law_only_full_searches_are_wide(n: NodeView, t: ThreadView, reply: Reply)
    requires
        t.wf(),
        n.wf(t.scale),
        n.answered_by(t.scale, reply),
    ensures
        search::next(n, t, reply).out matches Outcome::Search(params, _) ==> search::next(
            n,
            t,
            reply,
        ).node.core.phase is Full || params.beta.0 == params.alpha.0 + 1,
{
    law_step_is_sound(n, t, reply);
}

/// The node is on a move or a pass, or waits for a child.
pub open spec fn under_way(n: NodeView) -> bool {
    n.awaits_child() || n.core.phase is Make || n.core.phase is Unmake || n.core.phase is NullUnmake
}

/// At most how many steps a node that is under way takes once the search is to end.
pub open spec fn effort(n: NodeView) -> nat {
    match n.core.phase {
        Phase::Singular(_) => 6,
        Phase::Make(_) => 5,
        Phase::Scout(..) => 4,
        Phase::Research(..) => 3,
        Phase::Full(_) => 2,
        Phase::Unmake(..) => 1,
        Phase::NullChild => 2,
        Phase::NullUnmake(_) => 1,
        Phase::Quiesce => 1,
        _ => 0,
    }
}

/// Once the search is to end, a node that is under way learns and stores nothing: it
/// only goes on to take back what it has made, starts no child at the root, and ends
/// with a score of zero unless it passes on the score of a quiescence search. It takes a
/// few steps at most.
pub proof fn law_abort_winds_down(n: NodeView, t: ThreadView, reply: Reply)
    requires
        n.answered_by(t.scale, reply),
        under_way(n),
        t.abort_now,
    ensures
        ({
            let step = search::next(n, t, reply);
            &&& step.thread.tables == t.tables
            &&& step.thread.nodes == t.nodes
            &&& step.thread.abort_now
            &&& !(step.out matches Outcome::Ask(Query::Store(_)))
            &&& step.out matches Outcome::Search(params, _) ==> !params.kind.root
            &&& !(step.out is Overrun)
            &&& step.out matches Outcome::Done(score) ==> (if n.core.phase is Quiesce {
                reply == Reply::Child(score)
            } else {
                score == Score(0)
            })
            &&& step.out is Done || under_way(step.node)
            &&& effort(step.node) < effort(n)
        }),
{
    reveal(search::next);
    match n.core.phase {
        Phase::NullUnmake(_) => {
            reveal(search::null_done);
        },
        Phase::Singular(_) => {
            reveal(search::singled_out);
        },
        Phase::Make(_) => {
            reveal(search::made);
        },
        Phase::Scout(..) | Phase::Research(..) => {
            reveal(search::scouted);
            reveal(search::looked);
        },
        Phase::Unmake(..) => {
            reveal(search::tried);
        },
        _ => {},
    }
}

/// The line of a node on the principal variation starts with its best move, and the root
/// has a line as soon as it has searched a move.
pub open spec fn has_line(n: NodeView, t: ThreadView) -> bool {
    let c = n.core;
    let pv = t.stack[c.params.ply as int].pv;
    &&& c.moves_seen == 0 ==> c.best_move is None
    &&& c.params.kind.pv ==> (c.best_move matches Some(mv) ==> pv.len() > 0 && pv[0] == mv)
    &&& c.params.kind.root && c.moves_seen > 0 ==> pv.len() > 0
}

/// The step keeps the line of the node, unless it ends a search that was cut short.
pub open spec fn keeps_line(n: NodeView, t: ThreadView, step: Step) -> bool {
    has_line(n, t) ==> has_line(step.node, step.thread) || step.out is Overrun || step.out is Done && t.abort_now
}

proof fn lemma_evaluated_keeps_line(n: NodeView, t: ThreadView, raw_eval: Score)
    requires
        n.core.params.ply < t.stack.len(),
    ensures
        keeps_line(n, t, search::evaluated(n, t, raw_eval)),
{
    reveal(search::evaluated);
}

proof fn lemma_consider_keeps_line(n: NodeView, t: ThreadView, trial: Trial)
    requires
        n.core.params.ply < t.stack.len(),
    ensures
        keeps_line(n, t, search::consider(n, t, trial)),
        keeps_line(n, t, search::quiet_see(n, t, trial)),
{
    reveal(search::consider);
    reveal(search::quiet_see);
}

proof fn lemma_reduced_keeps_line(n: NodeView, t: ThreadView, pick: Pick, lmr: i16)
    requires
        n.core.params.ply < t.stack.len(),
    ensures
        keeps_line(n, t, search::reduced(n, t, pick, lmr)),
{
    reveal(search::reduced);
    lemma_consider_keeps_line(n, t, Trial { mv: pick.mv, lmr, extension: 0 });
}

proof fn lemma_looks_keep_line(n: NodeView, t: ThreadView, trial: Trial, pos: Position, score: Score)
    requires
        n.core.params.ply < t.stack.len(),
    ensures
        keeps_line(n, t, search::made(n, t, trial, pos)),
        keeps_line(n, t, search::scouted(n, t, trial, pos, score)),
        keeps_line(n, t, search::looked(n, t, trial, pos, score)),
        keeps_line(n, t, search::singled_out(n, t, trial, score)),
{
    reveal(search::made);
    reveal(search::scouted);
    reveal(search::looked);
    reveal(search::singled_out);
}

proof fn lemma_tried_keeps_line(n: NodeView, t: ThreadView, trial: Trial, score: Score)
    requires
        n.core.params.ply < t.stack.len(),
    ensures
        keeps_line(n, t, search::tried(n, t, trial, score)),
{
    reveal(search::tried);
}

/// On the principal variation the line of a node starts with its best move, and the
/// root never comes back from its first move without a line.
pub proof fn law_line_starts_with_the_best_move(n: NodeView, t: ThreadView, reply: Reply)
    requires
        t.wf(),
        n.wf(t.scale),
        n.answered_by(t.scale, reply),
        n.inside(),
    ensures
        keeps_line(n, t, search::next(n, t, reply)),
{
    reveal(search::next);
    match (n.core.phase, reply) {
        (Phase::Probe, Reply::Entry(entry)) => {
            reveal(search::probed);
            if let Some(e) = entry {
                lemma_evaluated_keeps_line(NodeView { core: Core { entry, ..n.core }, ..n }, t, e.eval);
            }
        },
        (Phase::Evaluate, Reply::Eval(eval)) => lemma_evaluated_keeps_line(n, t, eval),
        (Phase::NullUnmake(score), Reply::Done) => {
            reveal(search::null_done);
        },
        (Phase::Next, Reply::Move(pick)) => {
            reveal(search::picked);
        },
        (Phase::Reduce(pick), Reply::Reduction(lmr)) => lemma_reduced_keeps_line(n, t, pick, lmr),
        (Phase::Skip(trial), Reply::Done) => lemma_consider_keeps_line(n, t, trial),
        (Phase::See(trial), Reply::See(_)) => lemma_consider_keeps_line(n, t, trial),
        (Phase::Singular(trial), Reply::Child(s)) => lemma_looks_keep_line(n, t, trial, n.core.pos, s),
        (Phase::Make(trial), Reply::Reached(pos)) => lemma_looks_keep_line(n, t, trial, pos, Score(0)),
        (Phase::Scout(trial, pos), Reply::Child(s)) => lemma_looks_keep_line(
            n,
            t,
            trial,
            pos,
            crate::score::flip(s),
        ),
        (Phase::Research(trial, pos), Reply::Child(s)) => lemma_looks_keep_line(
            n,
            t,
            trial,
            pos,
            crate::score::flip(s),
        ),
        (Phase::Unmake(trial, score), Reply::Done) => lemma_tried_keeps_line(n, t, trial, score),
        (Phase::Store, Reply::Done) => {
            reveal(search::conclude);
        },
        _ => {},
    }
}

/// While a node looks at its moves, the mark at its ply names the move that is being
/// tested for being the only good one, and otherwise the move that the node itself leaves
/// out.
pub open spec fn marked(n: NodeView, t: ThreadView) -> bool {
    t.stack[n.core.params.ply as int].singular == match n.core.phase {
        Phase::Singular(trial) => Some(trial.mv),
        _ => n.core.singular,
    }
}

/// The step keeps the mark; a node that ends has put it back.
pub open spec fn keeps_mark(n: NodeView, t: ThreadView, step: Step) -> bool {
    marked(n, t) ==> marked(step.node, step.thread)
}

proof fn lemma_evaluated_keeps_mark(n: NodeView, t: ThreadView, raw_eval: Score)
    requires
        n.core.params.ply < t.stack.len(),
        !(n.core.phase is Singular),
    ensures
        keeps_mark(n, t, search::evaluated(n, t, raw_eval)),
{
    reveal(search::evaluated);
}

proof fn lemma_consider_keeps_mark(n: NodeView, t: ThreadView, trial: Trial)
    requires
        n.core.params.ply < t.stack.len(),
        !(n.core.phase is Singular),
    ensures
        keeps_mark(n, t, search::consider(n, t, trial)),
        keeps_mark(n, t, search::quiet_see(n, t, trial)),
{
    reveal(search::consider);
    reveal(search::quiet_see);
}

proof fn lemma_reduced_keeps_mark(n: NodeView, t: ThreadView, pick: Pick, lmr: i16)
    requires
        n.core.params.ply < t.stack.len(),
        !(n.core.phase is Singular),
    ensures
        keeps_mark(n, t, search::reduced(n, t, pick, lmr)),
{
    reveal(search::reduced);
    lemma_consider_keeps_mark(n, t, Trial { mv: pick.mv, lmr, extension: 0 });
}

proof fn lemma_looks_keep_mark(n: NodeView, t: ThreadView, trial: Trial, pos: Position, score: Score)
    requires
        n.core.params.ply < t.stack.len(),
    ensures
        n.core.phase is Singular && n.core.singular is None ==> keeps_mark(
            n,
            t,
            search::singled_out(n, t, trial, score),
        ),
        !(n.core.phase is Singular) ==> keeps_mark(n, t, search::made(n, t, trial, pos)),
        !(n.core.phase is Singular) ==> keeps_mark(n, t, search::scouted(n, t, trial, pos, score)),
        !(n.core.phase is Singular) ==> keeps_mark(n, t, search::looked(n, t, trial, pos, score)),
{
    reveal(search::made);
    reveal(search::scouted);
    reveal(search::looked);
    reveal(search::singled_out);
}

proof fn lemma_tried_keeps_mark(n: NodeView, t: ThreadView, trial: Trial, score: Score)
    requires
        n.core.params.ply < t.stack.len(),
        !(n.core.phase is Singular),
    ensures
        keeps_mark(n, t, search::tried(n, t, trial, score)),
{
    reveal(search::tried);
}

/// A node puts the mark of its ply back after each test, so that it leaves the mark as
/// it found it.
pub proof fn law_singular_mark_is_put_back(n: NodeView, t: ThreadView, reply: Reply)
    requires
        t.wf(),
        n.wf(t.scale),
        n.answered_by(t.scale, reply),
        n.inside(),
        n.core.phase is Singular ==> n.core.singular is None,
    ensures
        keeps_mark(n, t, search::next(n, t, reply)),
        marked(n, t) && search::next(n, t, reply).out is Done ==> search::next(
            n,
            t,
            reply,
        ).thread.stack[n.core.params.ply as int].singular == n.core.singular,
        search::next(n, t, reply).node.core.phase is Singular ==> n.core.singular is None,
{
    reveal(search::next);
    law_step_is_sound(n, t, reply);
    match (n.core.phase, reply) {
        (Phase::Probe, Reply::Entry(entry)) => {
            lemma_probed_leaves_out(n, t, entry);
            reveal(search::probed);
            if let Some(e) = entry {
                lemma_evaluated_keeps_mark(NodeView { core: Core { entry, ..n.core }, ..n }, t, e.eval);
            }
        },
        (Phase::Evaluate, Reply::Eval(eval)) => {
            lemma_evaluated_keeps_mark(n, t, eval);
            lemma_evaluated_leaves_out(n, t, eval);
        },
        (Phase::NullUnmake(score), Reply::Done) => {
            reveal(search::null_done);
        },
        (Phase::Next, Reply::Move(pick)) => {
            reveal(search::picked);
        },
        (Phase::Reduce(pick), Reply::Reduction(lmr)) => {
            lemma_reduced_keeps_mark(n, t, pick, lmr);
            lemma_reduced_tests_alone(n, t, pick, lmr);
        },
        (Phase::Skip(trial), Reply::Done) => {
            lemma_consider_keeps_mark(n, t, trial);
            lemma_consider_tests_alone(n, t, trial);
        },
        (Phase::See(trial), Reply::See(_)) => {
            lemma_consider_keeps_mark(n, t, trial);
            lemma_consider_tests_alone(n, t, trial);
        },
        (Phase::Singular(trial), Reply::Child(s)) => {
            lemma_looks_keep_mark(n, t, trial, n.core.pos, s);
            reveal(search::singled_out);
        },
        (Phase::Make(trial), Reply::Reached(pos)) => {
            lemma_looks_keep_mark(n, t, trial, pos, Score(0));
            reveal(search::made);
        },
        (Phase::Scout(trial, pos), Reply::Child(s)) => {
            lemma_looks_keep_mark(n, t, trial, pos, crate::score::flip(s));
            reveal(search::scouted);
            reveal(search::looked);
        },
        (Phase::Research(trial, pos), Reply::Child(s)) => {
            lemma_looks_keep_mark(n, t, trial, pos, crate::score::flip(s));
            reveal(search::looked);
        },
        (Phase::Unmake(trial, score), Reply::Done) => {
            lemma_tried_keeps_mark(n, t, trial, score);
            lemma_tried_leaves_out(n, t, trial, score);
            reveal(search::tried);
        },
        (Phase::Store, Reply::Done) => {
            reveal(search::conclude);
        },
        _ => {},
    }
}

proof fn lemma_consider_tests_alone(n: NodeView, t: ThreadView, trial: Trial)
    ensures
        search::consider(n, t, trial).node.core.phase is Singular ==> n.core.singular is None,
        search::quiet_see(n, t, trial).node.core.phase is Singular ==> n.core.singular is None,
        search::consider(n, t, trial).node.core.singular == n.core.singular,
        search::quiet_see(n, t, trial).node.core.singular == n.core.singular,
        !(search::consider(n, t, trial).out is Done),
        !(search::quiet_see(n, t, trial).out is Done),
{
    reveal(search::consider);
    reveal(search::quiet_see);
}

proof fn lemma_reduced_tests_alone(n: NodeView, t: ThreadView, pick: Pick, lmr: i16)
    ensures
        search::reduced(n, t, pick, lmr).node.core.phase is Singular ==> n.core.singular is None,
        search::reduced(n, t, pick, lmr).node.core.singular == n.core.singular,
        !(search::reduced(n, t, pick, lmr).out is Done),
{
    reveal(search::reduced);
    lemma_consider_tests_alone(n, t, Trial { mv: pick.mv, lmr, extension: 0 });
}

/// A move with this score goes on the line of the node.
pub open spec fn claims(n: NodeView, score: Score) -> bool {
    n.core.params.kind.root && n.core.moves_seen == 0 || n.core.params.kind.pv && score.0 > n.core.alpha.0
}

/// The node has been entered and has not ended.
pub open spec fn entered(n: NodeView) -> bool {
    n.inside() || n.core.phase is Quiesce
}

/// Only later moves are looked at first.
pub open spec fn scouts_later_moves(n: NodeView) -> bool {
    n.core.phase is Scout || n.core.phase is Research ==> n.core.moves_seen > 0
}

/// How a step of an entered node bears on lines: the line of its ply changes only when a
/// move that claims it was taken back, and then becomes that move and the line of the next
/// ply; only the full search of a move comes before a move that claims the line; and a
/// child may lie on the principal variation only if the node does and searches the move in
/// full, or hands its position on to the quiescence search.
pub open spec fn traced(n: NodeView, t: ThreadView, step: Step) -> bool {
    let ply = n.core.params.ply as int;
    &&& scouts_later_moves(step.node)
    &&& step.out is Ask || step.out is Search || step.out is Quiesce ==> entered(step.node)
    &&& step.out is Done ==> !entered(step.node)
    &&& step.thread.stack[ply].pv == t.stack[ply].pv || (n.core.phase matches Phase::Unmake(trial, score) && claims(
        n,
        score,
    ) && !t.abort_now && ply < MAX_PLY && step.thread.stack[ply].pv == seq![trial.mv] + t.stack[ply + 1].pv)
    &&& step.node.core.phase matches Phase::Unmake(trial, score) ==> claims(step.node, score) ==> n.core.phase
        == Phase::Full(trial)
    &&& step.out matches Outcome::Search(params, _) ==> {
        &&& !params.kind.root
        &&& params.kind.pv ==> step.node.core.phase is Full
        &&& step.node.core.phase is Full ==> params.kind.pv == n.core.params.kind.pv
    }
    &&& !(step.out is Quiesce) && !(step.node.core.phase is Quiesce)
}

proof fn lemma_probe_traced(n: NodeView, t: ThreadView, entry: Option<TTEntry>, raw_eval: Score)
    requires
        n.core.params.ply < t.stack.len(),
        n.core.phase is Probe || n.core.phase is Evaluate,
    ensures
        traced(n, t, search::evaluated(n, t, raw_eval)),
        traced(n, t, search::probed(n, t, entry)),
{
    reveal(search::evaluated);
    reveal(search::probed);
}

proof fn lemma_consider_traced(n: NodeView, t: ThreadView, trial: Trial)
    requires
        n.core.params.ply < t.stack.len(),
        n.core.phase is Reduce || n.core.phase is Skip || n.core.phase is See,
    ensures
        traced(n, t, search::consider(n, t, trial)),
        traced(n, t, search::quiet_see(n, t, trial)),
{
    reveal(search::consider);
    reveal(search::quiet_see);
}

proof fn lemma_reduced_traced(n: NodeView, t: ThreadView, pick: Pick, lmr: i16)
    requires
        n.core.params.ply < t.stack.len(),
        n.core.phase is Reduce,
    ensures
        traced(n, t, search::reduced(n, t, pick, lmr)),
{
    reveal(search::reduced);
    lemma_consider_traced(n, t, Trial { mv: pick.mv, lmr, extension: 0 });
}

proof fn lemma_looks_traced(n: NodeView, t: ThreadView, trial: Trial, pos: Position, score: Score)
    requires
        n.core.params.ply < t.stack.len(),
        scouts_later_moves(n),
        n.core.params.kind.root ==> n.core.params.kind.pv,
    ensures
        n.core.phase == Phase::Make(trial) ==> traced(n, t, search::made(n, t, trial, pos)),
        n.core.phase == Phase::Scout(trial, pos) ==> traced(n, t, search::scouted(n, t, trial, pos, score)),
        n.core.phase == Phase::Research(trial, pos) ==> traced(n, t, search::looked(n, t, trial, pos, score)),
        n.core.phase == Phase::Singular(trial) ==> traced(n, t, search::singled_out(n, t, trial, score)),
{
    reveal(search::made);
    reveal(search::scouted);
    reveal(search::looked);
    reveal(search::singled_out);
}

proof fn lemma_tried_traced(n: NodeView, t: ThreadView, trial: Trial, score: Score)
    requires
        n.core.params.ply < t.stack.len(),
        n.core.phase == Phase::Unmake(trial, score),
    ensures
        traced(n, t, search::tried(n, t, trial, score)),
{
    reveal(search::tried);
}

/// Every step of an entered node bears on lines as [`traced`] says.
pub proof fn law_lines_are_traced(n: NodeView, t: ThreadView, reply: Reply)
    requires
        t.wf(),
        n.wf(t.scale),
        n.answered_by(t.scale, reply),
        entered(n),
        scouts_later_moves(n),
    ensures
        traced(n, t, search::next(n, t, reply)),
{
    reveal(search::next);
    match (n.core.phase, reply) {
        (Phase::Probe, Reply::Entry(entry)) => lemma_probe_traced(n, t, entry, Score(0)),
        (Phase::Evaluate, Reply::Eval(eval)) => lemma_probe_traced(n, t, None, eval),
        (Phase::NullUnmake(score), Reply::Done) => {
            reveal(search::null_done);
        },
        (Phase::Next, Reply::Move(pick)) => {
            reveal(search::picked);
        },
        (Phase::Reduce(pick), Reply::Reduction(lmr)) => lemma_reduced_traced(n, t, pick, lmr),
        (Phase::Skip(trial), Reply::Done) => lemma_consider_traced(n, t, trial),
        (Phase::See(trial), Reply::See(_)) => lemma_consider_traced(n, t, trial),
        (Phase::Singular(trial), Reply::Child(s)) => lemma_looks_traced(n, t, trial, n.core.pos, s),
        (Phase::Make(trial), Reply::Reached(pos)) => lemma_looks_traced(n, t, trial, pos, Score(0)),
        (Phase::Scout(trial, pos), Reply::Child(s)) => lemma_looks_traced(
            n,
            t,
            trial,
            pos,
            crate::score::flip(s),
        ),
        (Phase::Research(trial, pos), Reply::Child(s)) => lemma_looks_traced(
            n,
            t,
            trial,
            pos,
            crate::score::flip(s),
        ),
        (Phase::Unmake(trial, score), Reply::Done) => lemma_tried_traced(n, t, trial, score),
        (Phase::Store, Reply::Done) => {
            reveal(search::conclude);
        },
        _ => {},
    }
}

/// A node that is entered finds the mark of its ply and leaves all marks as they are. On
/// the principal variation it forgets the line of its ply, and it hands its position on to
/// a quiescence search of its own kind, or asks for what is stored.
pub proof fn law_entering(n: NodeView, t: ThreadView)
    requires
        t.wf(),
        n.wf(t.scale),
        n.core.phase is Entry,
    ensures
        ({
            let step = search::enter(n, t);
            let ply = n.core.params.ply as int;
            &&& step.thread.abort_now == t.abort_now
            &&& forall|i: int|
                0 <= i < t.stack.len() ==> (#[trigger] step.thread.stack[i]).singular == t.stack[i].singular
            &&& step.node.inside() ==> step.node.core.phase is Probe && step.node.core.singular
                == t.stack[ply].singular && step.out is Ask && ply <= MAX_PLY
            &&& !(step.out is Overrun) && n.core.params.kind.pv ==> step.thread.stack[ply].pv == Seq::<Move>::empty()
            &&& step.out is Done ==> !entered(step.node)
            &&& step.out is Ask || step.out is Quiesce ==> entered(step.node) && scouts_later_moves(step.node)
            &&& step.out matches Outcome::Quiesce(params, _) ==> params.kind == n.core.params.kind
                && step.node.core.phase is Quiesce && (params.kind.pv ==> ply <= MAX_PLY)
            &&& !(step.out is Search)
        }),
{
    reveal(search::enter);
}

/// The node is on a move: it makes it, searches it or has just taken it back.
pub open spec fn on_a_move(n: NodeView) -> bool {
    match n.core.phase {
        Phase::Make(_) => true,
        Phase::Scout(..) => true,
        Phase::Research(..) => true,
        Phase::Full(_) => true,
        Phase::Unmake(..) => true,
        _ => false,
    }
}

/// A root neither passes nor tests a move for being the only good one.
pub open spec fn plain_root(n: NodeView) -> bool {
    n.core.params.kind.root ==> match n.core.phase {
        Phase::NullMake => false,
        Phase::NullChild => false,
        Phase::NullUnmake(_) => false,
        Phase::Singular(_) => false,
        _ => true,
    }
}

/// A root stays plain. A move that a node is on is counted when it is taken back, and until
/// then the node stays on it.
pub open spec fn counts_moves(n: NodeView, t: ThreadView, step: Step) -> bool {
    &&& plain_root(n) ==> plain_root(step.node)
    &&& on_a_move(n) && step.out is Done && !t.abort_now ==> step.node.core.moves_seen > 0
    &&& on_a_move(n) && !(step.out is Done || step.out is Overrun) ==> on_a_move(step.node)
        || step.node.core.moves_seen > 0
}

proof fn lemma_probe_counts(n: NodeView, t: ThreadView, entry: Option<TTEntry>, raw_eval: Score)
    requires
        n.core.phase is Probe || n.core.phase is Evaluate,
        n.core.params.kind.root ==> n.core.params.kind.pv,
    ensures
        counts_moves(n, t, search::evaluated(n, t, raw_eval)),
        counts_moves(n, t, search::probed(n, t, entry)),
{
    reveal(search::evaluated);
    reveal(search::probed);
}

proof fn lemma_consider_counts(n: NodeView, t: ThreadView, trial: Trial)
    requires
        n.core.phase is Reduce || n.core.phase is Skip || n.core.phase is See,
    ensures
        counts_moves(n, t, search::consider(n, t, trial)),
        counts_moves(n, t, search::quiet_see(n, t, trial)),
{
    reveal(search::consider);
    reveal(search::quiet_see);
}

proof fn lemma_reduced_counts(n: NodeView, t: ThreadView, pick: Pick, lmr: i16)
    requires
        n.core.phase is Reduce,
    ensures
        counts_moves(n, t, search::reduced(n, t, pick, lmr)),
{
    reveal(search::reduced);
    lemma_consider_counts(n, t, Trial { mv: pick.mv, lmr, extension: 0 });
}

/// Every step counts moves as [`counts_moves`] says.
pub proof fn law_moves_are_counted(n: NodeView, t: ThreadView, reply: Reply)
    requires
        n.wf(t.scale),
        n.answered_by(t.scale, reply),
        n.inside(),
    ensures
        counts_moves(n, t, search::next(n, t, reply)),
{
    reveal(search::next);
    match (n.core.phase, reply) {
        (Phase::Probe, Reply::Entry(entry)) => lemma_probe_counts(n, t, entry, Score(0)),
        (Phase::Evaluate, Reply::Eval(eval)) => lemma_probe_counts(n, t, None, eval),
        (Phase::NullUnmake(score), Reply::Done) => {
            reveal(search::null_done);
        },
        (Phase::Next, Reply::Move(pick)) => {
            reveal(search::picked);
        },
        (Phase::Reduce(pick), Reply::Reduction(lmr)) => lemma_reduced_counts(n, t, pick, lmr),
        (Phase::Skip(trial), Reply::Done) => lemma_consider_counts(n, t, trial),
        (Phase::See(trial), Reply::See(_)) => lemma_consider_counts(n, t, trial),
        (Phase::Singular(trial), Reply::Child(s)) => {
            reveal(search::singled_out);
        },
        (Phase::Make(trial), Reply::Reached(pos)) => {
            reveal(search::made);
        },
        (Phase::Scout(..), Reply::Child(_)) | (Phase::Research(..), Reply::Child(_)) => {
            reveal(search::scouted);
            reveal(search::looked);
        },
        (Phase::Unmake(..), Reply::Done) => {
            reveal(search::tried);
        },
        (Phase::Store, Reply::Done) => {
            reveal(search::conclude);
        },
        _ => {},
    }
}

} // verus!
