//! The main search, node by node.
//!
//! A node is a state machine. It is started with a window and a position, asks the
//! engine one thing at a time, waits for the searches of its children, and ends with
//! a score. [`next`] says what it does with each answer. Its larger parts are opaque: a
//! proof that looks into one of them reveals it.
use vstd::prelude::*;

use crate::board::{Board, Move, Position, TerminalState};
use crate::decisions;
use crate::limits::MAX_PLY;
use crate::move_list::MoveList;
use crate::node::{
    Made, NodeKind, NodeType, Outcome, Params, Pick, PickerSetup, Query, Reply, TTEntry, TTFlag, TTStore,
};
use crate::score::{negate, Score, ScoreScale};
use crate::thread::{update_pv, ThreadCtx, ThreadView};

verus! {

/// A move that is being tried.
#[derive(Clone, Copy, Debug, PartialEq, Eq, Structural)]
pub struct Trial {
    pub mv: Move,
    /// By how much the move is reduced.
    pub lmr: i16,
    /// By how much it is extended.
    pub extension: i16,
}

/// What a node is waiting for.
#[derive(Clone, Copy, Debug)]
pub enum Phase {
    /// Whether the time is up.
    Entry,
    /// The stored knowledge of the position.
    Probe,
    /// The evaluation.
    Evaluate,
    /// The passed move.
    NullMake,
    /// The search after the passed move.
    NullChild,
    /// The return from the passed move, which scored this.
    NullUnmake(Score),
    /// The move picker.
    Picker,
    /// A move.
    Next,
    /// The reduction of a move.
    Reduce(Pick),
    /// The end of the quiet moves.
    Skip(Trial),
    /// The exchange value of a move.
    See(Trial),
    /// The search without a move.
    Singular(Trial),
    /// The move on the board.
    Make(Trial),
    /// The first look at a later move.
    Scout(Trial, Position),
    /// The second look, at full depth.
    Research(Trial, Position),
    /// The search of a move with the full window.
    Full(Trial),
    /// The return from a move, which scored this.
    Unmake(Trial, Score),
    /// The transposition table.
    Store,
    /// The quiescence search of the same position.
    Quiesce,
    /// Nothing any more.
    Over,
}

/// The plain values of a node.
#[derive(Clone, Copy, Debug)]
pub struct Core {
    pub params: Params,
    pub pos: Position,
    pub phase: Phase,
    /// The lower end of the window, raised as better moves turn up.
    pub alpha: Score,
    /// The move that this search leaves out.
    pub singular: Option<Move>,
    pub entry: Option<TTEntry>,
    pub raw_eval: Score,
    pub static_eval: Score,
    pub improving: bool,
    pub best_score: Score,
    pub moves_seen: u32,
    pub best_move: Option<Move>,
    pub flag: TTFlag,
}

/// A node of the main search.
pub struct SearchNode {
    pub core: Core,
    /// The quiet moves that were tried and were not best.
    pub quiets: MoveList,
    /// The tactical moves that were tried and were not best.
    pub tactics: MoveList,
}

/// A [`SearchNode`] with its lists as sequences.
#[verifier::ext_equal]
pub struct NodeView {
    pub core: Core,
    pub quiets: Seq<Move>,
    pub tactics: Seq<Move>,
}

impl View for SearchNode {
    type V = NodeView;

    open spec fn view(&self) -> NodeView {
        NodeView {
            core: self.core,
            quiets: crate::move_list::listed(self.quiets),
            tactics: crate::move_list::listed(self.tactics),
        }
    }
}

/// What a node and its thread are after a step, and what the node does next.
#[verifier::ext_equal]
pub struct Step {
    pub node: NodeView,
    pub thread: ThreadView,
    pub out: Outcome,
}

/// A move on the board, from a square that is not empty.
pub open spec fn move_ok(board: Board, mv: Move) -> bool {
    mv.wf() && board.spec_piece_on(mv.from) is Some
}

pub open spec fn moves_ok(board: Board, moves: Seq<Move>) -> bool {
    forall|i: int| 0 <= i < moves.len() ==> move_ok(board, #[trigger] moves[i])
}

pub open spec fn trial_ok(board: Board, trial: Trial) -> bool {
    move_ok(board, trial.mv) && -1 <= trial.extension <= 2
}

impl NodeView {
    pub open spec fn at(self, phase: Phase) -> NodeView {
        NodeView { core: Core { phase, ..self.core }, ..self }
    }

    /// The node has been entered and is deep enough to look at moves.
    pub open spec fn inside(self) -> bool {
        !(self.core.phase is Entry || self.core.phase is Quiesce || self.core.phase is Over)
    }

    /// What the node has made once its query is carried out.
    pub open spec fn made(self) -> Option<Made> {
        match self.core.phase {
            Phase::NullMake => Some(Made::Null),
            Phase::NullChild => Some(Made::Null),
            Phase::Make(trial) => Some(Made::Move(trial.mv)),
            Phase::Scout(trial, _) => Some(Made::Move(trial.mv)),
            Phase::Research(trial, _) => Some(Made::Move(trial.mv)),
            Phase::Full(trial) => Some(Made::Move(trial.mv)),
            _ => None,
        }
    }

    /// The node waits for the search of a child.
    pub open spec fn awaits_child(self) -> bool {
        match self.core.phase {
            Phase::NullChild => true,
            Phase::Singular(_) => true,
            Phase::Scout(..) => true,
            Phase::Research(..) => true,
            Phase::Full(_) => true,
            Phase::Quiesce => true,
            _ => false,
        }
    }

    /// What a waiting node is known to be.
    pub open spec fn wf(self, scale: ScoreScale) -> bool {
        let c = self.core;
        let board = c.pos.board;
        &&& c.params.wf(scale)
        &&& c.pos.wf()
        &&& scale.holds(c.alpha)
        &&& c.phase is Store || c.alpha.0 < scale.infinite
        &&& scale.holds(c.best_score)
        &&& c.entry matches Some(e) ==> scale.holds(e.score)
        &&& -scale.nomate <= c.static_eval.0 <= scale.nomate
        &&& moves_ok(board, self.quiets)
        &&& moves_ok(board, self.tactics)
        &&& self.inside() ==> c.params.ply <= MAX_PLY && c.params.depth > 0
        &&& match c.phase {
            Phase::NullMake => c.params.depth >= 3,
            Phase::NullUnmake(s) => scale.holds(s),
            Phase::Reduce(pick) => move_ok(board, pick.mv),
            Phase::Skip(trial) => trial_ok(board, trial),
            Phase::See(trial) => trial_ok(board, trial),
            Phase::Singular(trial) => trial_ok(board, trial) && c.entry is Some,
            Phase::Make(trial) => trial_ok(board, trial),
            Phase::Scout(trial, pos) => trial_ok(board, trial) && pos.wf(),
            Phase::Research(trial, pos) => trial_ok(board, trial) && pos.wf(),
            Phase::Full(trial) => trial_ok(board, trial),
            Phase::Unmake(trial, s) => trial_ok(board, trial) && scale.holds(s),
            _ => true,
        }
    }

    /// The reply is one that the node waits for, with values that make sense.
    pub open spec fn answered_by(self, scale: ScoreScale, reply: Reply) -> bool {
        match (self.core.phase, reply) {
            (Phase::Entry, Reply::Stop(_)) => true,
            (Phase::Probe, Reply::Entry(e)) => e matches Some(e) ==> scale.holds(e.score),
            (Phase::Evaluate, Reply::Eval(_)) => true,
            (Phase::NullMake, Reply::Reached(p)) => p.wf(),
            (Phase::NullChild, Reply::Child(s)) => scale.holds(s),
            (Phase::NullUnmake(_), Reply::Done) => true,
            (Phase::Picker, Reply::Done) => true,
            (Phase::Next, Reply::Move(m)) => m matches Some(p) ==> move_ok(self.core.pos.board, p.mv),
            (Phase::Reduce(_), Reply::Reduction(_)) => true,
            (Phase::Skip(_), Reply::Done) => true,
            (Phase::See(_), Reply::See(_)) => true,
            (Phase::Singular(_), Reply::Child(s)) => scale.holds(s),
            (Phase::Make(_), Reply::Reached(p)) => p.wf(),
            (Phase::Scout(..), Reply::Child(s)) => scale.holds(s),
            (Phase::Research(..), Reply::Child(s)) => scale.holds(s),
            (Phase::Full(_), Reply::Child(s)) => scale.holds(s),
            (Phase::Unmake(..), Reply::Done) => true,
            (Phase::Store, Reply::Done) => true,
            (Phase::Quiesce, Reply::Child(s)) => scale.holds(s),
            _ => false,
        }
    }
}

/// The node waits for an answer.
pub open spec fn ask(n: NodeView, phase: Phase, t: ThreadView, query: Query) -> Step {
    Step { node: n.at(phase), thread: t, out: Outcome::Ask(query) }
}

/// The node waits for a child.
pub open spec fn descend(n: NodeView, phase: Phase, t: ThreadView, params: Params, pos: Position) -> Step {
    Step { node: n.at(phase), thread: t, out: Outcome::Search(params, pos) }
}

/// The node ends with a score.
pub open spec fn end(n: NodeView, t: ThreadView, score: Score) -> Step {
    Step { node: n.at(Phase::Over), thread: t, out: Outcome::Done(score) }
}

/// The node cannot go on.
pub open spec fn overrun(n: NodeView, t: ThreadView) -> Step {
    Step { node: n.at(Phase::Over), thread: t, out: Outcome::Overrun }
}

/// A node that has not done anything yet.
pub open spec fn fresh(params: Params, pos: Position, scale: ScoreScale) -> NodeView {
    NodeView {
        core: Core {
            params,
            pos,
            phase: Phase::Entry,
            alpha: params.alpha,
            singular: None,
            entry: None,
            raw_eval: Score(0),
            static_eval: Score(0),
            improving: false,
            best_score: Score((-scale.infinite) as i16),
            moves_seen: 0,
            best_move: None,
            flag: TTFlag::Upper,
        },
        quiets: Seq::empty(),
        tactics: Seq::empty(),
    }
}

/// A new node: anywhere but at the root it first sees whether the search is to end.
pub open spec fn begin(params: Params, pos: Position, t: ThreadView) -> Step {
    let n = fresh(params, pos, t.scale);
    if params.kind.root {
        enter(n, t)
    } else if t.abort_now {
        end(n, t, Score(0))
    } else {
        ask(n, Phase::Entry, t, Query::Stop { nodes: t.nodes })
    }
}

/// The thread as a node at this ply finds it.
pub open spec fn visited(t: ThreadView, params: Params) -> ThreadView {
    if params.kind.pv {
        t.seen(params.ply).without_line(params.ply)
    } else {
        t.seen(params.ply)
    }
}

/// How the quiescence search of the same position is started: depth and cut mark do not
/// matter to it.
pub open spec fn quiet_params(p: Params) -> Params {
    Params { depth: 0, cutnode: false, ..p }
}

/// The search goes on: games that are over and repeated positions have their score,
/// and at depth zero the quiescence search takes over.
#[verifier::opaque]
pub open spec fn enter(n: NodeView, t: ThreadView) -> Step {
    let p = n.core.params;
    let pos = n.core.pos;
    let t1 = visited(t, p);
    if p.kind.pv && p.ply > MAX_PLY {
        overrun(n, t.seen(p.ply))
    } else if pos.board.terminal is Some {
        end(
            n,
            t1.counted(),
            match pos.board.terminal.unwrap() {
                TerminalState::Checkmate(_) => t.scale.spec_new_mated(p.ply as int),
                TerminalState::Draw => Score(0),
            },
        )
    } else if !p.kind.root && pos.repetition {
        end(n, t1.counted(), Score(0))
    } else if p.depth <= 0 {
        Step { node: n.at(Phase::Quiesce), thread: t1, out: Outcome::Quiesce(quiet_params(p), pos) }
    } else {
        let t2 = if p.kind.root {
            t1
        } else {
            t1.counted()
        };
        if p.ply > MAX_PLY {
            overrun(n, t2)
        } else {
            let core = Core { singular: t2.stack[p.ply as int].singular, ..n.core };
            ask(
                NodeView { core, ..n },
                Phase::Probe,
                t2,
                Query::Probe { hash: pos.board.hash, ply: p.ply },
            )
        }
    }
}

/// The stored knowledge is there: off the principal variation it may end the node.
#[verifier::opaque]
pub open spec fn probed(n: NodeView, t: ThreadView, entry: Option<TTEntry>) -> Step {
    let p = n.core.params;
    let n1 = NodeView { core: Core { entry, ..n.core }, ..n };
    match entry {
        Some(e) => if !p.kind.pv && n.core.singular is None && e.depth >= p.depth
            && decisions::spec_tt_cutoff(e, n.core.alpha, p.beta) {
            end(n1, t, e.score)
        } else {
            evaluated(n1, t, e.eval)
        },
        None => ask(n1, Phase::Evaluate, t, Query::Evaluate),
    }
}

/// The evaluation is there: off the principal variation it may end the node, or have
/// the node try a pass.
#[verifier::opaque]
pub open spec fn evaluated(n: NodeView, t: ThreadView, raw_eval: Score) -> Step {
    let p = n.core.params;
    let pos = n.core.pos;
    let static_eval = decisions::spec_static_eval(t.scale, raw_eval, t.tables.corr(pos.board));
    let t1 = t.with_static_eval(p.ply, static_eval);
    let improving = decisions::spec_improving(
        t1.stack,
        p.ply,
        pos.board.in_check,
        static_eval,
        t.scale,
    );
    let n1 = NodeView { core: Core { raw_eval, static_eval, improving, ..n.core }, ..n };
    if p.kind.pv || pos.board.in_check || n.core.singular is Some {
        open_picker(n1, t1)
    } else if decisions::spec_reverse_futility(
        p.depth as int,
        improving,
        static_eval.0 as int,
        p.beta.0 as int,
    ) {
        end(n1, t1, static_eval)
    } else if decisions::spec_try_null_move(
        p.depth as int,
        static_eval.0 as int,
        p.beta.0 as int,
        pos.prev is Some,
    ) {
        ask(n1, Phase::NullMake, t1, Query::MakeNull)
    } else {
        open_picker(n1, t1)
    }
}

/// How the position after a pass is searched: shallower, with a window of width one
/// at `beta`.
pub open spec fn null_params(p: Params) -> Params {
    Params {
        kind: NodeKind::spec_non_pv(),
        depth: decisions::spec_null_depth(p.depth as int) as i16,
        ply: (p.ply + 1) as u16,
        alpha: crate::score::flip(p.beta),
        beta: crate::score::shift(crate::score::flip(p.beta), 1),
        cutnode: !p.cutnode,
    }
}

/// The pass was taken back: it ends the node if it held `beta`.
#[verifier::opaque]
pub open spec fn null_done(n: NodeView, t: ThreadView, score: Score) -> Step {
    if t.abort_now {
        end(n, t, Score(0))
    } else if score.0 >= n.core.params.beta.0 {
        end(n, t, n.core.params.beta)
    } else {
        open_picker(n, t)
    }
}

pub open spec fn tt_move(entry: Option<TTEntry>) -> Option<Move> {
    match entry {
        Some(e) => e.mv,
        None => None,
    }
}

pub open spec fn open_picker(n: NodeView, t: ThreadView) -> Step {
    ask(
        n,
        Phase::Picker,
        t,
        Query::OpenPicker(
            PickerSetup {
                tt_move: tt_move(n.core.entry),
                skip_quiets: false,
                see_threshold: 0,
                quiescence: false,
            },
        ),
    )
}

/// A move was handed out, or there is none left.
#[verifier::opaque]
pub open spec fn picked(n: NodeView, t: ThreadView, pick: Option<Pick>) -> Step {
    match pick {
        None => finish(n, t),
        Some(pick) => if n.core.singular == Some(pick.mv) {
            ask(n, Phase::Next, t, Query::NextMove)
        } else {
            ask(
                n,
                Phase::Reduce(pick),
                t,
                Query::Reduction {
                    tactic: pick.mv.tactic,
                    depth: n.core.params.depth as u8,
                    moves_seen: n.core.moves_seen,
                },
            )
        },
    }
}

/// The quiet moves that are left are not worth a look.
pub open spec fn gives_up_quiets(n: NodeView, t: ThreadView, mv: Move, lmr: int) -> bool {
    let p = n.core.params;
    let lmr_depth = decisions::spec_lmr_depth(p.depth as int, lmr);
    ||| decisions::spec_late_move(n.core.moves_seen as int, lmr_depth, n.core.improving)
    ||| decisions::spec_futile(
        p.kind.pv,
        lmr_depth,
        n.core.pos.board.in_check,
        n.core.static_eval.0 as int,
        n.core.alpha.0 as int,
    )
    ||| decisions::spec_bad_history(p.depth as int, lmr_depth, t.tables.score_quiet(n.core.pos, mv))
}

/// The reduction is there: unless all is lost so far, the move may be pruned.
#[verifier::opaque]
pub open spec fn reduced(n: NodeView, t: ThreadView, pick: Pick, lmr: i16) -> Step {
    let p = n.core.params;
    let trial = Trial { mv: pick.mv, lmr, extension: 0 };
    if p.kind.root || t.scale.spec_is_loss(n.core.best_score) {
        consider(n, t, trial)
    } else if pick.mv.tactic {
        if !p.kind.pv && p.depth <= 10 && pick.past_good_tactics {
            ask(
                n,
                Phase::See(trial),
                t,
                Query::See { mv: pick.mv, margin: (-60 * p.depth) as i16 },
            )
        } else {
            consider(n, t, trial)
        }
    } else if !pick.no_more_quiets && gives_up_quiets(n, t, pick.mv, lmr as int) {
        ask(n, Phase::Skip(trial), t, Query::SkipQuiets)
    } else {
        quiet_see(n, t, trial)
    }
}

/// Off the principal variation a quiet move with little depth left must not lose too
/// much material.
#[verifier::opaque]
pub open spec fn quiet_see(n: NodeView, t: ThreadView, trial: Trial) -> Step {
    let p = n.core.params;
    let lmr_depth = decisions::spec_lmr_depth(p.depth as int, trial.lmr as int);
    if !p.kind.pv && lmr_depth <= 10 {
        ask(
            n,
            Phase::See(trial),
            t,
            Query::See { mv: trial.mv, margin: (-100 * lmr_depth) as i16 },
        )
    } else {
        consider(n, t, trial)
    }
}

/// How the other moves are searched to see whether a move is the only good one.
pub open spec fn singular_params(p: Params, scale: ScoreScale, tt_score: Score) -> Params {
    let s_beta = decisions::spec_singular_beta(scale, tt_score.0 as int, p.depth as int);
    Params {
        kind: NodeKind::spec_non_pv(),
        depth: ((p.depth - 1) / 2) as i16,
        ply: p.ply,
        alpha: Score((s_beta - 1) as i16),
        beta: Score(s_beta as i16),
        cutnode: !p.cutnode,
    }
}

/// The move survived the pruning: it may be tested for being the only good one.
#[verifier::opaque]
pub open spec fn consider(n: NodeView, t: ThreadView, trial: Trial) -> Step {
    let p = n.core.params;
    if decisions::spec_try_singular(
        p.kind.root,
        n.core.singular is Some,
        p.depth as int,
        n.core.entry,
        trial.mv,
    ) {
        descend(
            n,
            Phase::Singular(trial),
            t.with_singular(p.ply, Some(trial.mv)),
            singular_params(p, t.scale, n.core.entry.unwrap().score),
            n.core.pos,
        )
    } else {
        make(n, t, trial)
    }
}

/// The other moves were searched: the move gets its extension.
#[verifier::opaque]
pub open spec fn singled_out(n: NodeView, t: ThreadView, trial: Trial, score: Score) -> Step {
    let p = n.core.params;
    let tt_score = n.core.entry.unwrap().score;
    let s_beta = decisions::spec_singular_beta(t.scale, tt_score.0 as int, p.depth as int);
    let extension = decisions::spec_extension(
        p.kind.pv,
        score.0 as int,
        s_beta,
        tt_score.0 as int,
        p.beta.0 as int,
    );
    make(n, t.with_singular(p.ply, None), Trial { extension: extension as i16, ..trial })
}

pub open spec fn make(n: NodeView, t: ThreadView, trial: Trial) -> Step {
    ask(n, Phase::Make(trial), t, Query::MakeMove(trial.mv))
}

pub open spec fn new_depth(p: Params, trial: Trial) -> int {
    p.depth + trial.extension - 1
}

/// How a child is searched with the full window.
pub open spec fn full_params(c: Core, trial: Trial, kind: NodeKind) -> Params {
    Params {
        kind,
        depth: new_depth(c.params, trial) as i16,
        ply: (c.params.ply + 1) as u16,
        alpha: crate::score::flip(c.params.beta),
        beta: crate::score::flip(c.alpha),
        cutnode: false,
    }
}

/// How a later child is searched with a window of width one at `alpha`.
pub open spec fn null_window_params(c: Core, depth: int, cutnode: bool) -> Params {
    Params {
        kind: NodeKind::spec_non_pv(),
        depth: depth as i16,
        ply: (c.params.ply + 1) as u16,
        alpha: crate::score::shift(crate::score::flip(c.alpha), -1),
        beta: crate::score::flip(c.alpha),
        cutnode,
    }
}

/// The move is on the board: the first one is searched with the full window, the
/// others get a reduced look first.
#[verifier::opaque]
pub open spec fn made(n: NodeView, t: ThreadView, trial: Trial, pos: Position) -> Step {
    let p = n.core.params;
    if n.core.moves_seen == 0 {
        descend(n, Phase::Full(trial), t, full_params(n.core, trial, p.kind.spec_next()), pos)
    } else {
        let depth = decisions::spec_scout_depth(new_depth(p, trial), trial.lmr as int, p.cutnode);
        descend(n, Phase::Scout(trial, pos), t, null_window_params(n.core, depth, true), pos)
    }
}

/// The first look is over: a reduced move that did well is searched again.
#[verifier::opaque]
pub open spec fn scouted(n: NodeView, t: ThreadView, trial: Trial, pos: Position, score: Score) -> Step {
    let p = n.core.params;
    if trial.lmr > 0 && score.0 > n.core.alpha.0 {
        descend(
            n,
            Phase::Research(trial, pos),
            t,
            null_window_params(n.core, new_depth(p, trial), !p.cutnode),
            pos,
        )
    } else {
        looked(n, t, trial, pos, score)
    }
}

/// The looks are over: on the principal variation a move that still does well is
/// searched with the full window.
#[verifier::opaque]
pub open spec fn looked(n: NodeView, t: ThreadView, trial: Trial, pos: Position, score: Score) -> Step {
    if n.core.params.kind.pv && score.0 > n.core.alpha.0 {
        descend(n, Phase::Full(trial), t, full_params(n.core, trial, NodeKind::spec_pv()), pos)
    } else {
        unmake(n, t, trial, score)
    }
}

pub open spec fn unmake(n: NodeView, t: ThreadView, trial: Trial, score: Score) -> Step {
    ask(n, Phase::Unmake(trial, score), t, Query::UnmakeMove)
}

/// The move belongs on the line of this node.
pub open spec fn leads(c: Core, moves_seen: u32, score: Score) -> bool {
    c.params.kind.root && moves_seen == 1 || c.params.kind.pv && score.0 > c.alpha.0
}

/// The values of a node after a move that scored `score`.
pub open spec fn scored(c: Core, mv: Move, score: Score) -> Core {
    let raises = score.0 > c.alpha.0;
    Core {
        moves_seen: (if c.moves_seen == u32::MAX { c.moves_seen as int } else { c.moves_seen + 1 }) as u32,
        best_score: if score.0 > c.best_score.0 {
            score
        } else {
            c.best_score
        },
        alpha: if raises {
            score
        } else {
            c.alpha
        },
        best_move: if raises {
            Some(mv)
        } else {
            c.best_move
        },
        flag: if score.0 >= c.params.beta.0 {
            TTFlag::Lower
        } else if raises {
            TTFlag::Exact
        } else {
            c.flag
        },
        ..c
    }
}

/// The move was taken back: its score counts, unless the search is to end. A move
/// that reaches `beta` ends the loop and teaches the tables.
#[verifier::opaque]
pub open spec fn tried(n: NodeView, t: ThreadView, trial: Trial, score: Score) -> Step {
    let c = n.core;
    let p = c.params;
    let c1 = scored(c, trial.mv, score);
    if t.abort_now {
        end(NodeView { core: Core { moves_seen: c1.moves_seen, ..c }, ..n }, t, Score(0))
    } else if leads(c, c1.moves_seen, score) && p.ply >= MAX_PLY {
        overrun(NodeView { core: Core { moves_seen: c1.moves_seen, ..c }, ..n }, t)
    } else {
        let t1 = if leads(c, c1.moves_seen, score) {
            t.with_line(p.ply, trial.mv)
        } else {
            t
        };
        if score.0 >= p.beta.0 {
            let tables = t1.tables.update(c.pos, trial.mv, n.quiets, n.tactics, p.depth as int);
            finish(NodeView { core: c1, ..n }, t1.with_tables(tables))
        } else {
            let n1 = if c1.best_move == Some(trial.mv) {
                NodeView { core: c1, ..n }
            } else if trial.mv.tactic {
                NodeView { core: c1, tactics: n.tactics.push(trial.mv), ..n }
            } else {
                NodeView { core: c1, quiets: n.quiets.push(trial.mv), ..n }
            };
            ask(n1, Phase::Next, t1, Query::NextMove)
        }
    }
}

/// What the transposition table is told of a finished node.
pub open spec fn stored(c: Core) -> TTStore {
    TTStore {
        hash: c.pos.board.hash,
        depth: c.params.depth as u8,
        ply: c.params.ply,
        eval: c.raw_eval,
        score: c.best_score,
        mv: c.best_move,
        flag: c.flag,
        pv: true,
    }
}

/// The moves are through: a search that left none out is stored.
pub open spec fn finish(n: NodeView, t: ThreadView) -> Step {
    if n.core.singular is None {
        ask(n, Phase::Store, t, Query::Store(stored(n.core)))
    } else {
        end(n, t, n.core.best_score)
    }
}

/// The score is stored: it may teach the correction tables.
#[verifier::opaque]
pub open spec fn conclude(n: NodeView, t: ThreadView) -> Step {
    let c = n.core;
    let t1 = if decisions::spec_corrects(
        c.pos.board.in_check,
        c.singular is Some,
        c.best_move,
        c.flag,
        c.best_score.0 as int,
        c.static_eval.0 as int,
    ) {
        t.with_tables(
            t.tables.update_corr(
                c.pos.board,
                c.params.depth as int,
                c.best_score.0 as int,
                c.static_eval.0 as int,
            ),
        )
    } else {
        t
    };
    end(n, t1, c.best_score)
}

/// What a node does with a reply.
#[verifier::opaque]
pub open spec fn next(n: NodeView, t: ThreadView, reply: Reply) -> Step {
    match (n.core.phase, reply) {
        (Phase::Entry, Reply::Stop(stop)) => if stop {
            end(n, t.aborted(), Score(0))
        } else {
            enter(n, t)
        },
        (Phase::Probe, Reply::Entry(entry)) => probed(n, t, entry),
        (Phase::Evaluate, Reply::Eval(eval)) => evaluated(n, t, eval),
        (Phase::NullMake, Reply::Reached(pos)) => descend(
            n,
            Phase::NullChild,
            t,
            null_params(n.core.params),
            pos,
        ),
        (Phase::NullChild, Reply::Child(s)) => ask(
            n,
            Phase::NullUnmake(crate::score::flip(s)),
            t,
            Query::UnmakeNull,
        ),
        (Phase::NullUnmake(score), Reply::Done) => null_done(n, t, score),
        (Phase::Picker, Reply::Done) => ask(n, Phase::Next, t, Query::NextMove),
        (Phase::Next, Reply::Move(pick)) => picked(n, t, pick),
        (Phase::Reduce(pick), Reply::Reduction(lmr)) => reduced(n, t, pick, lmr),
        (Phase::Skip(trial), Reply::Done) => quiet_see(n, t, trial),
        (Phase::See(trial), Reply::See(good)) => if good {
            consider(n, t, trial)
        } else {
            ask(n, Phase::Next, t, Query::NextMove)
        },
        (Phase::Singular(trial), Reply::Child(s)) => singled_out(n, t, trial, s),
        (Phase::Make(trial), Reply::Reached(pos)) => made(n, t, trial, pos),
        (Phase::Scout(trial, pos), Reply::Child(s)) => scouted(
            n,
            t,
            trial,
            pos,
            crate::score::flip(s),
        ),
        (Phase::Research(trial, pos), Reply::Child(s)) => looked(
            n,
            t,
            trial,
            pos,
            crate::score::flip(s),
        ),
        (Phase::Full(trial), Reply::Child(s)) => unmake(n, t, trial, crate::score::flip(s)),
        (Phase::Unmake(trial, score), Reply::Done) => tried(n, t, trial, score),
        (Phase::Store, Reply::Done) => conclude(n, t),
        (Phase::Quiesce, Reply::Child(s)) => end(n, t, s),
        _ => overrun(n, t),
    }
}

/// Tests whether a move can be tried on a board.
pub fn is_playable(board: &Board, mv: Move) -> (b: bool)
    ensures
        b == move_ok(*board, mv),
{
    mv.on_board() && board.piece_on(mv.from).is_some()
}

/// Begins the search of a position with a window, and says what the node waits for.
pub fn search<Node: NodeType>(
    pos: &Position,
    depth: i16,
    ply: u16,
    alpha: Score,
    beta: Score,
    cutnode: bool,
    thread: &mut ThreadCtx,
) -> (started: (SearchNode, Outcome))
    requires
        old(thread)@.wf(),
        pos.wf(),
        (Params { kind: Node::spec_kind(), depth, ply, alpha, beta, cutnode }).wf(
            old(thread)@.scale,
        ),
    ensures
        (Step { node: started.0@, thread: final(thread)@, out: started.1 }) == begin(
            Params { kind: Node::spec_kind(), depth, ply, alpha, beta, cutnode },
            *pos,
            old(thread)@,
        ),
{
    let params = Params { kind: NodeKind::of::<Node>(), depth, ply, alpha, beta, cutnode };
    SearchNode::start(params, *pos, thread)
}

impl SearchNode {
    /// Begins a node.
    pub fn start(params: Params, pos: Position, thread: &mut ThreadCtx) -> (started: (SearchNode, Outcome))
        requires
            old(thread)@.wf(),
            pos.wf(),
            params.wf(old(thread)@.scale),
        ensures
            (Step { node: started.0@, thread: final(thread)@, out: started.1 }) == begin(
                params,
                pos,
                old(thread)@,
            ),
    {
        let mut node = SearchNode {
            core: Core {
                params,
                pos,
                phase: Phase::Entry,
                alpha: params.alpha,
                singular: None,
                entry: None,
                raw_eval: Score(0),
                static_eval: Score(0),
                improving: false,
                best_score: Score(-thread.scale.infinite),
                moves_seen: 0,
                best_move: None,
                flag: TTFlag::Upper,
            },
            quiets: MoveList::new(),
            tactics: MoveList::new(),
        };
        let out = if params.kind.root {
            node.enter(thread)
        } else if thread.abort_now {
            node.end(Score(0))
        } else {
            node.ask(Phase::Entry, Query::Stop { nodes: thread.nodes })
        };
        (node, out)
    }

    fn ask(&mut self, phase: Phase, query: Query) -> (out: Outcome)
        ensures
            final(self)@ == old(self)@.at(phase),
            out == Outcome::Ask(query),
    {
        self.core.phase = phase;
        Outcome::Ask(query)
    }

    fn descend(&mut self, phase: Phase, params: Params, pos: Position) -> (out: Outcome)
        ensures
            final(self)@ == old(self)@.at(phase),
            out == Outcome::Search(params, pos),
    {
        self.core.phase = phase;
        Outcome::Search(params, pos)
    }

    fn end(&mut self, score: Score) -> (out: Outcome)
        ensures
            final(self)@ == old(self)@.at(Phase::Over),
            out == Outcome::Done(score),
    {
        self.core.phase = Phase::Over;
        Outcome::Done(score)
    }

    fn overrun(&mut self) -> (out: Outcome)
        ensures
            final(self)@ == old(self)@.at(Phase::Over),
            out == Outcome::Overrun,
    {
        self.core.phase = Phase::Over;
        Outcome::Overrun
    }

    fn enter(&mut self, thread: &mut ThreadCtx) -> (out: Outcome)
        requires
            old(thread)@.wf(),
            old(self).core.params.wf(old(thread)@.scale),
        ensures
            (Step { node: final(self)@, thread: final(thread)@, out }) == enter(old(self)@, old(thread)@),
    {
        proof {
            reveal(enter);
        }
        let p = self.core.params;
        thread.see(p.ply);
        if p.kind.pv {
            if p.ply > MAX_PLY {
                return self.overrun();
            }
            thread.forget_line(p.ply);
        }
        if let Some(terminal) = self.core.pos.board.terminal {
            thread.count_node();
            return match terminal {
                TerminalState::Checkmate(_) => {
                    let mated = thread.scale.new_mated(p.ply);
                    self.end(mated)
                },
                TerminalState::Draw => self.end(Score(0)),
            };
        }
        if !p.kind.root && self.core.pos.repetition {
            thread.count_node();
            return self.end(Score(0));
        }
        if p.depth <= 0 {
            self.core.phase = Phase::Quiesce;
            let quiet = Params { depth: 0, cutnode: false, ..p };
            return Outcome::Quiesce(quiet, self.core.pos);
        }
        if !p.kind.root {
            thread.count_node();
        }
        if p.ply > MAX_PLY {
            return self.overrun();
        }
        assert(thread@.stack.len() == MAX_PLY + 1);
        assert(thread@.stack[p.ply as int] == thread.search_stack@[p.ply as int]@);
        self.core.singular = thread.search_stack[p.ply as usize].singular;
        let hash = self.core.pos.board.hash;
        self.ask(Phase::Probe, Query::Probe { hash, ply: p.ply })
    }

    fn probed(&mut self, thread: &mut ThreadCtx, entry: Option<TTEntry>) -> (out: Outcome)
        requires
            old(thread)@.wf(),
            old(self)@.wf(old(thread)@.scale),
            old(self).core.phase is Probe,
            entry matches Some(e) ==> old(thread)@.scale.holds(e.score),
        ensures
            (Step { node: final(self)@, thread: final(thread)@, out }) == probed(
                old(self)@,
                old(thread)@,
                entry,
            ),
    {
        proof {
            reveal(probed);
        }
        let p = self.core.params;
        self.core.entry = entry;
        match entry {
            Some(e) => {
                if !p.kind.pv && self.core.singular.is_none() && e.depth as i16 >= p.depth
                    && decisions::tt_cutoff(&e, self.core.alpha, p.beta) {
                    self.end(e.score)
                } else {
                    self.evaluated(thread, e.eval)
                }
            },
            None => self.ask(Phase::Evaluate, Query::Evaluate),
        }
    }

    fn evaluated(&mut self, thread: &mut ThreadCtx, raw_eval: Score) -> (out: Outcome)
        requires
            old(thread)@.wf(),
            old(self)@.wf(old(thread)@.scale),
            old(self)@.inside(),
        ensures
            (Step { node: final(self)@, thread: final(thread)@, out }) == evaluated(
                old(self)@,
                old(thread)@,
                raw_eval,
            ),
    {
        proof {
            reveal(evaluated);
        }
        let p = self.core.params;
        let board = self.core.pos.board;
        let corr: i16 = thread.history.corr(&board);
        let static_eval = decisions::static_eval(&thread.scale, raw_eval, corr);
        thread.set_static_eval(p.ply, static_eval);
        assert(thread@.stack.len() == MAX_PLY + 1);
        let improving = decisions::improving(
            &thread.search_stack,
            p.ply,
            board.in_check,
            static_eval,
            &thread.scale,
        );
        self.core.raw_eval = raw_eval;
        self.core.static_eval = static_eval;
        self.core.improving = improving;
        if !p.kind.pv && !board.in_check && self.core.singular.is_none() {
            if decisions::reverse_futility(p.depth, improving, static_eval, p.beta) {
                return self.end(static_eval);
            }
            if decisions::try_null_move(p.depth, static_eval, p.beta, self.core.pos.prev.is_some()) {
                return self.ask(Phase::NullMake, Query::MakeNull);
            }
        }
        self.open_picker()
    }

    fn open_picker(&mut self) -> (out: Outcome)
        ensures
            forall|t: ThreadView|
                (Step { node: final(self)@, thread: t, out }) == #[trigger] open_picker(old(self)@, t),
    {
        let tt_move = match self.core.entry {
            Some(e) => e.mv,
            None => None,
        };
        self.ask(
            Phase::Picker,
            Query::OpenPicker(
                PickerSetup { tt_move, skip_quiets: false, see_threshold: 0, quiescence: false },
            ),
        )
    }

    fn null_done(&mut self, thread: &ThreadCtx, score: Score) -> (out: Outcome)
        ensures
            (Step { node: final(self)@, thread: thread@, out }) == null_done(old(self)@, thread@, score),
    {
        proof {
            reveal(null_done);
        }
        if thread.abort_now {
            self.end(Score(0))
        } else if score.0 >= self.core.params.beta.0 {
            let beta = self.core.params.beta;
            self.end(beta)
        } else {
            self.open_picker()
        }
    }

    fn picked(&mut self, thread: &ThreadCtx, pick: Option<Pick>) -> (out: Outcome)
        ensures
            (Step { node: final(self)@, thread: thread@, out }) == picked(old(self)@, thread@, pick),
    {
        proof {
            reveal(picked);
        }
        match pick {
            None => self.finish(),
            Some(pick) => {
                let excluded = match self.core.singular {
                    Some(s) => s == pick.mv,
                    None => false,
                };
                if excluded {
                    return self.ask(Phase::Next, Query::NextMove);
                }
                let depth: u8 = self.core.params.depth as u8;
                let moves_seen: u32 = self.core.moves_seen;
                self.ask(
                    Phase::Reduce(pick),
                    Query::Reduction { tactic: pick.mv.tactic, depth, moves_seen },
                )
            },
        }
    }

    fn gives_up_quiets(&self, thread: &ThreadCtx, mv: Move, lmr: i16) -> (b: bool)
        requires
            thread@.wf(),
            self@.wf(thread@.scale),
            move_ok(self.core.pos.board, mv),
        ensures
            b == gives_up_quiets(self@, thread@, mv, lmr as int),
    {
        let p = self.core.params;
        let lmr_depth: i32 = decisions::lmr_depth(p.depth, lmr);
        let hist: i32 = thread.history.quiet_total(&self.core.pos, mv);
        decisions::late_move(self.core.moves_seen, lmr_depth, self.core.improving) || decisions::futile(
            p.kind.pv,
            lmr_depth,
            self.core.pos.board.in_check,
            self.core.static_eval,
            self.core.alpha,
        ) || decisions::bad_history(p.depth, lmr_depth, hist)
    }

    fn reduced(&mut self, thread: &mut ThreadCtx, pick: Pick, lmr: i16) -> (out: Outcome)
        requires
            old(thread)@.wf(),
            old(self)@.wf(old(thread)@.scale),
            old(self).core.phase == Phase::Reduce(pick),
        ensures
            (Step { node: final(self)@, thread: final(thread)@, out }) == reduced(
                old(self)@,
                old(thread)@,
                pick,
                lmr,
            ),
    {
        proof {
            reveal(reduced);
        }
        let p = self.core.params;
        let trial = Trial { mv: pick.mv, lmr, extension: 0 };
        if p.kind.root || thread.scale.is_loss(self.core.best_score) {
            return self.consider(thread, trial);
        }
        if pick.mv.tactic {
            if !p.kind.pv && p.depth <= 10 && pick.past_good_tactics {
                let tactic_scale: i16 = -60;
                let margin: i16 = tactic_scale * p.depth;
                return self.ask(Phase::See(trial), Query::See { mv: pick.mv, margin });
            }
            return self.consider(thread, trial);
        }
        if !pick.no_more_quiets && self.gives_up_quiets(thread, pick.mv, lmr) {
            return self.ask(Phase::Skip(trial), Query::SkipQuiets);
        }
        self.quiet_see(thread, trial)
    }

    fn quiet_see(&mut self, thread: &mut ThreadCtx, trial: Trial) -> (out: Outcome)
        requires
            old(thread)@.wf(),
            old(self)@.wf(old(thread)@.scale),
            old(self)@.inside(),
            trial_ok(old(self).core.pos.board, trial),
        ensures
            (Step { node: final(self)@, thread: final(thread)@, out }) == quiet_see(
                old(self)@,
                old(thread)@,
                trial,
            ),
    {
        proof {
            reveal(quiet_see);
        }
        let p = self.core.params;
        let lmr_depth: i32 = decisions::lmr_depth(p.depth, trial.lmr);
        if !p.kind.pv && lmr_depth <= 10 {
            let quiet_scale: i32 = -100;
            let margin: i16 = (quiet_scale * lmr_depth) as i16;
            return self.ask(Phase::See(trial), Query::See { mv: trial.mv, margin });
        }
        self.consider(thread, trial)
    }

    fn consider(&mut self, thread: &mut ThreadCtx, trial: Trial) -> (out: Outcome)
        requires
            old(thread)@.wf(),
            old(self)@.wf(old(thread)@.scale),
            old(self)@.inside(),
            trial_ok(old(self).core.pos.board, trial),
        ensures
            (Step { node: final(self)@, thread: final(thread)@, out }) == consider(
                old(self)@,
                old(thread)@,
                trial,
            ),
    {
        proof {
            reveal(consider);
        }
        let p = self.core.params;
        if let Some(e) = self.core.entry {
            if decisions::try_singular(
                p.kind.root,
                self.core.singular.is_some(),
                p.depth,
                self.core.entry,
                trial.mv,
            ) {
                let s_beta = decisions::singular_beta(&thread.scale, e.score, p.depth);
                let s_depth: i16 = (p.depth - 1) / 2;
                thread.set_singular(p.ply, Some(trial.mv));
                let params = Params {
                    kind: NodeKind { root: false, pv: false },
                    depth: s_depth,
                    ply: p.ply,
                    alpha: Score(s_beta.0 - 1),
                    beta: s_beta,
                    cutnode: !p.cutnode,
                };
                let pos = self.core.pos;
                return self.descend(Phase::Singular(trial), params, pos);
            }
        }
        self.ask(Phase::Make(trial), Query::MakeMove(trial.mv))
    }

    fn singled_out(&mut self, thread: &mut ThreadCtx, trial: Trial, score: Score) -> (out: Outcome)
        requires
            old(thread)@.wf(),
            old(self)@.wf(old(thread)@.scale),
            old(self).core.phase == Phase::Singular(trial),
        ensures
            (Step { node: final(self)@, thread: final(thread)@, out }) == singled_out(
                old(self)@,
                old(thread)@,
                trial,
                score,
            ),
    {
        proof {
            reveal(singled_out);
        }
        let p = self.core.params;
        let tt_score = self.core.entry.unwrap().score;
        let s_beta = decisions::singular_beta(&thread.scale, tt_score, p.depth);
        thread.set_singular(p.ply, None);
        let extension: i16 = decisions::extension(p.kind.pv, score, s_beta, tt_score, p.beta);
        let trial = Trial { mv: trial.mv, lmr: trial.lmr, extension };
        self.ask(Phase::Make(trial), Query::MakeMove(trial.mv))
    }

    fn full_params(&self, trial: Trial, kind: NodeKind, scale: &ScoreScale) -> (params: Params)
        requires
            scale.wf(),
            self@.wf(*scale),
            self@.inside(),
            -1 <= trial.extension <= 2,
        ensures
            params == full_params(self.core, trial, kind),
    {
        let p = self.core.params;
        Params {
            kind,
            depth: p.depth + trial.extension - 1,
            ply: p.ply + 1,
            alpha: negate(p.beta),
            beta: negate(self.core.alpha),
            cutnode: false,
        }
    }

    fn null_window_params(&self, depth: i16, cutnode: bool, scale: &ScoreScale) -> (params: Params)
        requires
            scale.wf(),
            self@.wf(*scale),
            self@.inside(),
        ensures
            params == null_window_params(self.core, depth as int, cutnode),
    {
        let beta = negate(self.core.alpha);
        Params {
            kind: NodeKind { root: false, pv: false },
            depth,
            ply: self.core.params.ply + 1,
            alpha: Score(beta.0 - 1),
            beta,
            cutnode,
        }
    }

    fn made(&mut self, thread: &ThreadCtx, trial: Trial, pos: Position) -> (out: Outcome)
        requires
            thread@.wf(),
            old(self)@.wf(thread@.scale),
            old(self).core.phase == Phase::Make(trial),
        ensures
            (Step { node: final(self)@, thread: thread@, out }) == made(old(self)@, thread@, trial, pos),
    {
        proof {
            reveal(made);
        }
        let p = self.core.params;
        if self.core.moves_seen == 0 {
            let params = self.full_params(trial, p.kind.next(), &thread.scale);
            self.descend(Phase::Full(trial), params, pos)
        } else {
            let new_depth: i16 = p.depth + trial.extension - 1;
            let depth: i16 = decisions::scout_depth(new_depth, trial.lmr, p.cutnode);
            let params = self.null_window_params(depth, true, &thread.scale);
            self.descend(Phase::Scout(trial, pos), params, pos)
        }
    }

    fn scouted(&mut self, thread: &ThreadCtx, trial: Trial, pos: Position, score: Score) -> (out: Outcome)
        requires
            thread@.wf(),
            old(self)@.wf(thread@.scale),
            old(self).core.phase == Phase::Scout(trial, pos),
        ensures
            (Step { node: final(self)@, thread: thread@, out }) == scouted(
                old(self)@,
                thread@,
                trial,
                pos,
                score,
            ),
    {
        proof {
            reveal(scouted);
        }
        let p = self.core.params;
        if trial.lmr > 0 && score.0 > self.core.alpha.0 {
            let new_depth: i16 = p.depth + trial.extension - 1;
            let params = self.null_window_params(new_depth, !p.cutnode, &thread.scale);
            self.descend(Phase::Research(trial, pos), params, pos)
        } else {
            self.looked(thread, trial, pos, score)
        }
    }

    fn looked(&mut self, thread: &ThreadCtx, trial: Trial, pos: Position, score: Score) -> (out: Outcome)
        requires
            thread@.wf(),
            old(self)@.wf(thread@.scale),
            old(self)@.inside(),
            trial_ok(old(self).core.pos.board, trial),
        ensures
            (Step { node: final(self)@, thread: thread@, out }) == looked(
                old(self)@,
                thread@,
                trial,
                pos,
                score,
            ),
    {
        proof {
            reveal(looked);
        }
        if self.core.params.kind.pv && score.0 > self.core.alpha.0 {
            let params = self.full_params(trial, NodeKind { root: false, pv: true }, &thread.scale);
            self.descend(Phase::Full(trial), params, pos)
        } else {
            self.ask(Phase::Unmake(trial, score), Query::UnmakeMove)
        }
    }

    fn tried(&mut self, thread: &mut ThreadCtx, trial: Trial, score: Score) -> (out: Outcome)
        requires
            old(thread)@.wf(),
            old(self)@.wf(old(thread)@.scale),
            old(self).core.phase == Phase::Unmake(trial, score),
        ensures
            (Step { node: final(self)@, thread: final(thread)@, out }) == tried(
                old(self)@,
                old(thread)@,
                trial,
                score,
            ),
    {
        proof {
            reveal(tried);
        }
        let p = self.core.params;
        let mv = trial.mv;
        if self.core.moves_seen < u32::MAX {
            self.core.moves_seen = self.core.moves_seen + 1;
        }
        if thread.abort_now {
            return self.end(Score(0));
        }
        let raises: bool = score.0 > self.core.alpha.0;
        if p.kind.root && self.core.moves_seen == 1 || p.kind.pv && raises {
            if p.ply >= MAX_PLY {
                return self.overrun();
            }
            update_pv(thread, p.ply, mv);
        }
        if score.0 > self.core.best_score.0 {
            self.core.best_score = score;
        }
        if raises {
            self.core.alpha = score;
            self.core.best_move = Some(mv);
            self.core.flag = TTFlag::Exact;
        }
        if score.0 >= p.beta.0 {
            self.core.flag = TTFlag::Lower;
            thread.history.update(
                &self.core.pos,
                mv,
                self.quiets.as_slice(),
                self.tactics.as_slice(),
                p.depth,
            );
            return self.finish();
        }
        let best = match self.core.best_move {
            Some(m) => m == mv,
            None => false,
        };
        if !best {
            if mv.tactic {
                self.tactics.push(mv);
            } else {
                self.quiets.push(mv);
            }
        }
        self.ask(Phase::Next, Query::NextMove)
    }

    fn finish(&mut self) -> (out: Outcome)
        ensures
            forall|t: ThreadView|
                (Step { node: final(self)@, thread: t, out }) == #[trigger] finish(old(self)@, t),
    {
        if self.core.singular.is_none() {
            let store = TTStore {
                hash: self.core.pos.board.hash,
                depth: self.core.params.depth as u8,
                ply: self.core.params.ply,
                eval: self.core.raw_eval,
                score: self.core.best_score,
                mv: self.core.best_move,
                flag: self.core.flag,
                pv: true,
            };
            self.ask(Phase::Store, Query::Store(store))
        } else {
            let best_score = self.core.best_score;
            self.end(best_score)
        }
    }

    fn conclude(&mut self, thread: &mut ThreadCtx) -> (out: Outcome)
        requires
            old(thread)@.wf(),
        ensures
            (Step { node: final(self)@, thread: final(thread)@, out }) == conclude(old(self)@, old(thread)@),
    {
        proof {
            reveal(conclude);
        }
        let best_score = self.core.best_score;
        if decisions::corrects(
            self.core.pos.board.in_check,
            self.core.singular.is_some(),
            self.core.best_move,
            self.core.flag,
            best_score,
            self.core.static_eval,
        ) {
            thread.history.update_corr(
                &self.core.pos.board,
                self.core.params.depth,
                best_score,
                self.core.static_eval,
            );
        }
        self.end(best_score)
    }

    /// Tests whether a reply is one that the node waits for.
    pub fn accepts(&self, scale: &ScoreScale, reply: &Reply) -> (b: bool)
        requires
            scale.wf(),
        ensures
            b == self@.answered_by(*scale, *reply),
    {
        match (self.core.phase, *reply) {
            (Phase::Entry, Reply::Stop(_)) => true,
            (Phase::Probe, Reply::Entry(e)) => match e {
                Some(e) => scale.has(e.score),
                None => true,
            },
            (Phase::Evaluate, Reply::Eval(_)) => true,
            (Phase::NullMake, Reply::Reached(p)) => p.is_valid(),
            (Phase::NullChild, Reply::Child(s)) => scale.has(s),
            (Phase::NullUnmake(_), Reply::Done) => true,
            (Phase::Picker, Reply::Done) => true,
            (Phase::Next, Reply::Move(m)) => match m {
                Some(p) => is_playable(&self.core.pos.board, p.mv),
                None => true,
            },
            (Phase::Reduce(_), Reply::Reduction(_)) => true,
            (Phase::Skip(_), Reply::Done) => true,
            (Phase::See(_), Reply::See(_)) => true,
            (Phase::Singular(_), Reply::Child(s)) => scale.has(s),
            (Phase::Make(_), Reply::Reached(p)) => p.is_valid(),
            (Phase::Scout(..), Reply::Child(s)) => scale.has(s),
            (Phase::Research(..), Reply::Child(s)) => scale.has(s),
            (Phase::Full(_), Reply::Child(s)) => scale.has(s),
            (Phase::Unmake(..), Reply::Done) => true,
            (Phase::Store, Reply::Done) => true,
            (Phase::Quiesce, Reply::Child(s)) => scale.has(s),
            _ => false,
        }
    }

    /// Takes a reply, and says what the node does next.
    pub fn step(&mut self, thread: &mut ThreadCtx, reply: Reply) -> (out: Outcome)
        requires
            old(thread)@.wf(),
            old(self)@.wf(old(thread)@.scale),
            old(self)@.answered_by(old(thread)@.scale, reply),
        ensures
            (Step { node: final(self)@, thread: final(thread)@, out }) == next(
                old(self)@,
                old(thread)@,
                reply,
            ),
    {
        proof {
            reveal(next);
        }
        match (self.core.phase, reply) {
            (Phase::Entry, Reply::Stop(stop)) => {
                if stop {
                    thread.abort_now = true;
                    self.end(Score(0))
                } else {
                    self.enter(thread)
                }
            },
            (Phase::Probe, Reply::Entry(entry)) => self.probed(thread, entry),
            (Phase::Evaluate, Reply::Eval(eval)) => self.evaluated(thread, eval),
            (Phase::NullMake, Reply::Reached(pos)) => {
                let p = self.core.params;
                let alpha = negate(p.beta);
                let params = Params {
                    kind: NodeKind { root: false, pv: false },
                    depth: decisions::null_depth(p.depth),
                    ply: p.ply + 1,
                    alpha,
                    beta: Score(alpha.0 + 1),
                    cutnode: !p.cutnode,
                };
                self.descend(Phase::NullChild, params, pos)
            },
            (Phase::NullChild, Reply::Child(s)) => self.ask(
                Phase::NullUnmake(negate(s)),
                Query::UnmakeNull,
            ),
            (Phase::NullUnmake(score), Reply::Done) => self.null_done(thread, score),
            (Phase::Picker, Reply::Done) => self.ask(Phase::Next, Query::NextMove),
            (Phase::Next, Reply::Move(pick)) => self.picked(thread, pick),
            (Phase::Reduce(pick), Reply::Reduction(lmr)) => self.reduced(thread, pick, lmr),
            (Phase::Skip(trial), Reply::Done) => self.quiet_see(thread, trial),
            (Phase::See(trial), Reply::See(good)) => {
                if good {
                    self.consider(thread, trial)
                } else {
                    self.ask(Phase::Next, Query::NextMove)
                }
            },
            (Phase::Singular(trial), Reply::Child(s)) => self.singled_out(thread, trial, s),
            (Phase::Make(trial), Reply::Reached(pos)) => self.made(thread, trial, pos),
            (Phase::Scout(trial, pos), Reply::Child(s)) => self.scouted(thread, trial, pos, negate(s)),
            (Phase::Research(trial, pos), Reply::Child(s)) => self.looked(thread, trial, pos, negate(s)),
            (Phase::Full(trial), Reply::Child(s)) => self.ask(
                Phase::Unmake(trial, negate(s)),
                Query::UnmakeMove,
            ),
            (Phase::Unmake(trial, score), Reply::Done) => self.tried(thread, trial, score),
            (Phase::Store, Reply::Done) => self.conclude(thread),
            (Phase::Quiesce, Reply::Child(s)) => self.end(s),
            _ => self.overrun(),
        }
    }
}

} // verus!
