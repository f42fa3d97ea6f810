//! The quiescence search, node by node.
//!
//! Like a node of the main search, a quiescence node is a state machine that asks one
//! thing at a time. [`next`] says what it does with each answer. Its larger parts are
//! opaque: a proof that looks into one of them reveals it.
use vstd::prelude::*;

use crate::board::{Move, Position, TerminalState};
use crate::decisions;
use crate::limits::MAX_PLY;
use crate::node::{Made, NodeKind, NodeType, Outcome, Params, Pick, PickerSetup, Query, Reply, TTEntry};
use crate::score::{negate, Score, ScoreScale};
use crate::search;
use crate::thread::{update_pv, ThreadCtx, ThreadView};

verus! {

/// What a quiescence node is waiting for.
#[derive(Clone, Copy, Debug)]
pub enum QPhase {
    /// Whether the time is up.
    Entry,
    /// The evaluation of a leaf at the last ply.
    Leaf,
    /// The stored knowledge of the position.
    Probe,
    /// The evaluation.
    Evaluate,
    /// The move picker.
    Picker,
    /// A move.
    Next,
    /// The move on the board.
    Make(Move),
    /// The search of the move.
    Child(Move),
    /// The return from a move, which scored this.
    Unmake(Move, Score),
    /// Nothing any more.
    Over,
}

/// A node of the quiescence search. Its parameters carry a depth and a cut mark only
/// because those of every node do.
#[derive(Clone, Copy, Debug)]
pub struct QNode {
    pub params: Params,
    pub pos: Position,
    pub phase: QPhase,
    /// The lower end of the window, raised as better scores turn up.
    pub alpha: Score,
    pub entry: Option<TTEntry>,
    pub best_score: Score,
    pub moves_seen: u32,
}

/// What a node and its thread are after a step, and what the node does next.
#[verifier::ext_equal]
pub struct QStep {
    pub node: QNode,
    pub thread: ThreadView,
    pub out: Outcome,
}

impl QNode {
    pub open spec fn at(self, phase: QPhase) -> QNode {
        QNode { phase, ..self }
    }

    /// The node has been entered and looks at moves.
    pub open spec fn inside(self) -> bool {
        !(self.phase is Entry || self.phase is Leaf || self.phase is Over)
    }

    /// What the node has made once its query is carried out.
    pub open spec fn made(self) -> Option<Made> {
        match self.phase {
            QPhase::Make(mv) => Some(Made::Move(mv)),
            QPhase::Child(mv) => Some(Made::Move(mv)),
            _ => None,
        }
    }

    /// The node waits for the search of a child.
    pub open spec fn awaits_child(self) -> bool {
        self.phase is Child
    }

    /// What a waiting node is known to be.
    pub open spec fn wf(self, scale: ScoreScale) -> bool {
        &&& self.params.wf(scale)
        &&& self.pos.wf()
        &&& -scale.infinite <= self.alpha.0 < scale.infinite
        &&& scale.holds(self.best_score)
        &&& self.entry matches Some(e) ==> scale.holds(e.score)
        &&& self.inside() ==> self.params.ply < MAX_PLY
        &&& match self.phase {
            QPhase::Unmake(_, s) => scale.holds(s),
            _ => true,
        }
    }

    /// The corrected evaluation is a score: nothing clamps it here.
    pub open spec fn fits(self, t: ThreadView, raw_eval: Score) -> bool {
        -t.scale.infinite <= raw_eval.0 + t.tables.corr(self.pos.board) <= t.scale.infinite
    }

    /// The reply is one that the node waits for, with values that make sense.
    pub open spec fn answered_by(self, t: ThreadView, reply: Reply) -> bool {
        match (self.phase, reply) {
            (QPhase::Entry, Reply::Stop(_)) => true,
            (QPhase::Leaf, Reply::Eval(s)) => t.scale.holds(s),
            (QPhase::Probe, Reply::Entry(e)) => e matches Some(e) ==> t.scale.holds(e.score) && (
            self.pos.board.in_check || self.fits(t, e.eval)),
            (QPhase::Evaluate, Reply::Eval(s)) => self.fits(t, s),
            (QPhase::Picker, Reply::Done) => true,
            (QPhase::Next, Reply::Move(m)) => m matches Some(p) ==> search::move_ok(self.pos.board, p.mv),
            (QPhase::Make(_), Reply::Reached(p)) => p.wf(),
            (QPhase::Child(_), Reply::Child(s)) => t.scale.holds(s),
            (QPhase::Unmake(..), Reply::Done) => true,
            _ => false,
        }
    }
}

pub open spec fn ask(n: QNode, phase: QPhase, t: ThreadView, query: Query) -> QStep {
    QStep { node: n.at(phase), thread: t, out: Outcome::Ask(query) }
}

pub open spec fn end(n: QNode, t: ThreadView, score: Score) -> QStep {
    QStep { node: n.at(QPhase::Over), thread: t, out: Outcome::Done(score) }
}

pub open spec fn overrun(n: QNode, t: ThreadView) -> QStep {
    QStep { node: n.at(QPhase::Over), thread: t, out: Outcome::Overrun }
}

/// A node that has not done anything yet.
pub open spec fn fresh(params: Params, pos: Position, scale: ScoreScale) -> QNode {
    QNode {
        params,
        pos,
        phase: QPhase::Entry,
        alpha: params.alpha,
        entry: None,
        best_score: Score((-scale.infinite) as i16),
        moves_seen: 0,
    }
}

/// A new node first sees whether the search is to end.
pub open spec fn begin(params: Params, pos: Position, t: ThreadView) -> QStep {
    let n = fresh(params, pos, t.scale);
    if t.abort_now {
        end(n, t, Score(0))
    } else {
        ask(n, QPhase::Entry, t, Query::Stop { nodes: t.nodes })
    }
}

/// The search goes on: games that are over and repeated positions have their score,
/// and the last ply is scored on its face.
#[verifier::opaque]
pub open spec fn enter(n: QNode, t: ThreadView) -> QStep {
    let p = n.params;
    let t1 = search::visited(t, p);
    if p.kind.pv && p.ply > MAX_PLY {
        overrun(n, t.seen(p.ply))
    } else if n.pos.board.terminal is Some {
        end(
            n,
            t1,
            match n.pos.board.terminal.unwrap() {
                TerminalState::Checkmate(_) => t.scale.spec_new_mated(p.ply as int),
                TerminalState::Draw => Score(0),
            },
        )
    } else if n.pos.repetition {
        end(n, t1, Score(0))
    } else if p.ply >= MAX_PLY {
        ask(n, QPhase::Leaf, t1, Query::Evaluate)
    } else {
        ask(
            n,
            QPhase::Probe,
            t1.counted(),
            Query::Probe { hash: n.pos.board.hash, ply: p.ply },
        )
    }
}

/// The stored knowledge is there; out of check an evaluation is needed as well.
#[verifier::opaque]
pub open spec fn probed(n: QNode, t: ThreadView, entry: Option<TTEntry>) -> QStep {
    let n1 = QNode { entry, ..n };
    if n.pos.board.in_check {
        look_up(n1, t)
    } else {
        match entry {
            Some(e) => evaluated(n1, t, e.eval),
            None => ask(n1, QPhase::Evaluate, t, Query::Evaluate),
        }
    }
}

/// Standing pat: the evaluation ends the node where it reaches `beta`, and is a floor
/// under its score otherwise.
#[verifier::opaque]
pub open spec fn evaluated(n: QNode, t: ThreadView, raw_eval: Score) -> QStep {
    let static_eval = Score((raw_eval.0 + t.tables.corr(n.pos.board)) as i16);
    if static_eval.0 >= n.params.beta.0 {
        end(n, t, static_eval)
    } else if static_eval.0 >= n.alpha.0 {
        look_up(QNode { alpha: static_eval, ..n }, t)
    } else {
        look_up(n, t)
    }
}

/// Off the principal variation a stored score of any depth may end the node.
pub open spec fn look_up(n: QNode, t: ThreadView) -> QStep {
    if !n.params.kind.pv && (n.entry matches Some(e) && decisions::spec_tt_cutoff(e, n.alpha, n.params.beta)) {
        end(n, t, n.entry.unwrap().score)
    } else {
        ask(
            n,
            QPhase::Picker,
            t,
            Query::OpenPicker(
                PickerSetup {
                    tt_move: None,
                    skip_quiets: !n.pos.board.in_check,
                    see_threshold: 0,
                    quiescence: true,
                },
            ),
        )
    }
}

/// The better of the best move and the floor.
pub open spec fn result(n: QNode) -> Score {
    if n.best_score.0 >= n.alpha.0 {
        n.best_score
    } else {
        n.alpha
    }
}

/// A move was handed out, or there is none left. Unless it is lost or in check the
/// node looks at three moves only.
#[verifier::opaque]
pub open spec fn picked(n: QNode, t: ThreadView, pick: Option<Pick>) -> QStep {
    match pick {
        None => end(n, t, result(n)),
        Some(pick) => if !t.scale.spec_is_loss(n.best_score) && !n.pos.board.in_check && n.moves_seen > 2 {
            end(n, t, result(n))
        } else {
            ask(n, QPhase::Make(pick.mv), t, Query::MakeMove(pick.mv))
        },
    }
}

/// How a child is searched.
pub open spec fn child_params(n: QNode) -> Params {
    Params {
        kind: n.params.kind.spec_next(),
        depth: 0,
        ply: (n.params.ply + 1) as u16,
        alpha: crate::score::flip(n.params.beta),
        beta: crate::score::flip(n.alpha),
        cutnode: false,
    }
}

/// The move belongs on the line of this node.
pub open spec fn leads(n: QNode, moves_seen: u32, score: Score) -> bool {
    n.params.kind.root && moves_seen == 1 || n.params.kind.pv && score.0 > n.alpha.0
}

/// The values of a node after a move that scored `score`.
pub open spec fn scored(n: QNode, score: Score) -> QNode {
    QNode {
        moves_seen: (if n.moves_seen == u32::MAX { n.moves_seen as int } else { n.moves_seen + 1 }) as u32,
        best_score: if score.0 > n.best_score.0 {
            score
        } else {
            n.best_score
        },
        alpha: if score.0 > n.alpha.0 {
            score
        } else {
            n.alpha
        },
        ..n
    }
}

/// The move was taken back: its score counts, unless the search is to end. A move
/// that reaches `beta` ends the node.
#[verifier::opaque]
pub open spec fn tried(n: QNode, t: ThreadView, mv: Move, score: Score) -> QStep {
    let n1 = scored(n, score);
    if t.abort_now {
        end(QNode { moves_seen: n1.moves_seen, ..n }, t, Score(0))
    } else {
        let t1 = if leads(n, n1.moves_seen, score) {
            t.with_line(n.params.ply, mv)
        } else {
            t
        };
        if score.0 >= n.params.beta.0 {
            end(n1, t1, result(n1))
        } else {
            ask(n1, QPhase::Next, t1, Query::NextMove)
        }
    }
}

/// What a node does with a reply.
#[verifier::opaque]
pub open spec fn next(n: QNode, t: ThreadView, reply: Reply) -> QStep {
    match (n.phase, reply) {
        (QPhase::Entry, Reply::Stop(stop)) => if stop {
            end(n, t.aborted(), Score(0))
        } else {
            enter(n, t)
        },
        (QPhase::Leaf, Reply::Eval(eval)) => end(n, t, eval),
        (QPhase::Probe, Reply::Entry(entry)) => probed(n, t, entry),
        (QPhase::Evaluate, Reply::Eval(eval)) => evaluated(n, t, eval),
        (QPhase::Picker, Reply::Done) => ask(n, QPhase::Next, t, Query::NextMove),
        (QPhase::Next, Reply::Move(pick)) => picked(n, t, pick),
        (QPhase::Make(mv), Reply::Reached(pos)) => QStep {
            node: n.at(QPhase::Child(mv)),
            thread: t,
            out: Outcome::Quiesce(child_params(n), pos),
        },
        (QPhase::Child(mv), Reply::Child(s)) => ask(
            n,
            QPhase::Unmake(mv, crate::score::flip(s)),
            t,
            Query::UnmakeMove,
        ),
        (QPhase::Unmake(mv, score), Reply::Done) => tried(n, t, mv, score),
        _ => overrun(n, t),
    }
}

/// Begins the quiescence search of a position with a window, and says what the node
/// waits for.
pub fn qsearch<Node: NodeType>(
    pos: &Position,
    ply: u16,
    alpha: Score,
    beta: Score,
    thread: &mut ThreadCtx,
) -> (started: (QNode, Outcome))
    requires
        old(thread)@.wf(),
        pos.wf(),
        (Params {
            kind: Node::spec_kind(),
            depth: 0,
            ply,
            alpha,
            beta,
            cutnode: false,
        }).wf(old(thread)@.scale),
    ensures
        (QStep { node: started.0, thread: final(thread)@, out: started.1 }) == begin(
            Params {
                kind: Node::spec_kind(),
                depth: 0,
                ply,
                alpha,
                beta,
                cutnode: false,
            },
            *pos,
            old(thread)@,
        ),
{
    let params = Params { kind: NodeKind::of::<Node>(), depth: 0, ply, alpha, beta, cutnode: false };
    QNode::start(params, *pos, thread)
}

impl QNode {
    /// Begins a node.
    pub fn start(params: Params, pos: Position, thread: &mut ThreadCtx) -> (started: (QNode, Outcome))
        requires
            old(thread)@.wf(),
        ensures
            (QStep { node: started.0, thread: final(thread)@, out: started.1 }) == begin(
                params,
                pos,
                old(thread)@,
            ),
    {
        let mut node = QNode {
            params,
            pos,
            phase: QPhase::Entry,
            alpha: params.alpha,
            entry: None,
            best_score: Score(-thread.scale.infinite),
            moves_seen: 0,
        };
        let out = if thread.abort_now {
            node.end(Score(0))
        } else {
            node.ask(QPhase::Entry, Query::Stop { nodes: thread.nodes })
        };
        (node, out)
    }

    fn ask(&mut self, phase: QPhase, query: Query) -> (out: Outcome)
        ensures
            *final(self) == old(self).at(phase),
            out == Outcome::Ask(query),
    {
        self.phase = phase;
        Outcome::Ask(query)
    }

    fn end(&mut self, score: Score) -> (out: Outcome)
        ensures
            *final(self) == old(self).at(QPhase::Over),
            out == Outcome::Done(score),
    {
        self.phase = QPhase::Over;
        Outcome::Done(score)
    }

    fn overrun(&mut self) -> (out: Outcome)
        ensures
            *final(self) == old(self).at(QPhase::Over),
            out == Outcome::Overrun,
    {
        self.phase = QPhase::Over;
        Outcome::Overrun
    }

    fn enter(&mut self, thread: &mut ThreadCtx) -> (out: Outcome)
        requires
            old(thread)@.wf(),
            old(self).params.wf(old(thread)@.scale),
        ensures
            (QStep { node: *final(self), thread: final(thread)@, out }) == enter(*old(self), old(thread)@),
    {
        proof {
            reveal(enter);
        }
        let p = self.params;
        thread.see(p.ply);
        if p.kind.pv {
            if p.ply > MAX_PLY {
                return self.overrun();
            }
            thread.forget_line(p.ply);
        }
        if let Some(terminal) = self.pos.board.terminal {
            return match terminal {
                TerminalState::Checkmate(_) => {
                    let mated = thread.scale.new_mated(p.ply);
                    self.end(mated)
                },
                TerminalState::Draw => self.end(Score(0)),
            };
        }
        if self.pos.repetition {
            return self.end(Score(0));
        }
        if p.ply >= MAX_PLY {
            return self.ask(QPhase::Leaf, Query::Evaluate);
        }
        thread.count_node();
        let hash = self.pos.board.hash;
        self.ask(QPhase::Probe, Query::Probe { hash, ply: p.ply })
    }

    fn probed(&mut self, thread: &ThreadCtx, entry: Option<TTEntry>) -> (out: Outcome)
        requires
            thread@.wf(),
            entry matches Some(e) ==> old(self).pos.board.in_check || old(self).fits(thread@, e.eval),
        ensures
            (QStep { node: *final(self), thread: thread@, out }) == probed(*old(self), thread@, entry),
    {
        proof {
            reveal(probed);
        }
        self.entry = entry;
        if self.pos.board.in_check {
            return self.look_up();
        }
        match entry {
            Some(e) => self.evaluated(thread, e.eval),
            None => self.ask(QPhase::Evaluate, Query::Evaluate),
        }
    }

    fn evaluated(&mut self, thread: &ThreadCtx, raw_eval: Score) -> (out: Outcome)
        requires
            thread@.wf(),
            old(self).fits(thread@, raw_eval),
        ensures
            (QStep { node: *final(self), thread: thread@, out }) == evaluated(*old(self), thread@, raw_eval),
    {
        proof {
            reveal(evaluated);
        }
        let corr: i16 = thread.history.corr(&self.pos.board);
        let static_eval = Score(raw_eval.0 + corr);
        if static_eval.0 >= self.params.beta.0 {
            return self.end(static_eval);
        }
        if static_eval.0 >= self.alpha.0 {
            self.alpha = static_eval;
        }
        self.look_up()
    }

    fn look_up(&mut self) -> (out: Outcome)
        ensures
            forall|t: ThreadView|
                (QStep { node: *final(self), thread: t, out }) == #[trigger] look_up(*old(self), t),
    {
        if !self.params.kind.pv {
            if let Some(e) = self.entry {
                if decisions::tt_cutoff(&e, self.alpha, self.params.beta) {
                    return self.end(e.score);
                }
            }
        }
        let skip_quiets = !self.pos.board.in_check;
        self.ask(
            QPhase::Picker,
            Query::OpenPicker(
                PickerSetup { tt_move: None, skip_quiets, see_threshold: 0, quiescence: true },
            ),
        )
    }

    fn result(&self) -> (s: Score)
        ensures
            s == result(*self),
    {
        if self.best_score.0 >= self.alpha.0 {
            self.best_score
        } else {
            self.alpha
        }
    }

    fn picked(&mut self, thread: &ThreadCtx, pick: Option<Pick>) -> (out: Outcome)
        requires
            thread@.wf(),
        ensures
            (QStep { node: *final(self), thread: thread@, out }) == picked(*old(self), thread@, pick),
    {
        proof {
            reveal(picked);
        }
        let result = self.result();
        match pick {
            None => self.end(result),
            Some(pick) => {
                if !thread.scale.is_loss(self.best_score) && !self.pos.board.in_check && self.moves_seen > 2 {
                    self.end(result)
                } else {
                    self.ask(QPhase::Make(pick.mv), Query::MakeMove(pick.mv))
                }
            },
        }
    }

    fn tried(&mut self, thread: &mut ThreadCtx, mv: Move, score: Score) -> (out: Outcome)
        requires
            old(thread)@.wf(),
            old(self).params.ply < MAX_PLY,
        ensures
            (QStep { node: *final(self), thread: final(thread)@, out }) == tried(
                *old(self),
                old(thread)@,
                mv,
                score,
            ),
    {
        proof {
            reveal(tried);
        }
        let p = self.params;
        if self.moves_seen < u32::MAX {
            self.moves_seen = self.moves_seen + 1;
        }
        if thread.abort_now {
            return self.end(Score(0));
        }
        let raises: bool = score.0 > self.alpha.0;
        if p.kind.root && self.moves_seen == 1 || p.kind.pv && raises {
            update_pv(thread, p.ply, mv);
        }
        if score.0 > self.best_score.0 {
            self.best_score = score;
        }
        if raises {
            self.alpha = score;
        }
        if score.0 >= p.beta.0 {
            let result = self.result();
            return self.end(result);
        }
        self.ask(QPhase::Next, Query::NextMove)
    }

    fn eval_fits(&self, thread: &ThreadCtx, raw_eval: Score) -> (b: bool)
        requires
            thread@.wf(),
        ensures
            b == self.fits(thread@, raw_eval),
    {
        let sum: i32 = raw_eval.0 as i32 + thread.history.corr(&self.pos.board) as i32;
        -(thread.scale.infinite as i32) <= sum && sum <= thread.scale.infinite as i32
    }

    /// Tests whether a reply is one that the node waits for.
    pub fn accepts(&self, thread: &ThreadCtx, reply: &Reply) -> (b: bool)
        requires
            thread@.wf(),
        ensures
            b == self.answered_by(thread@, *reply),
    {
        match (self.phase, *reply) {
            (QPhase::Entry, Reply::Stop(_)) => true,
            (QPhase::Leaf, Reply::Eval(s)) => thread.scale.has(s),
            (QPhase::Probe, Reply::Entry(e)) => match e {
                Some(e) => thread.scale.has(e.score) && (self.pos.board.in_check || self.eval_fits(
                    thread,
                    e.eval,
                )),
                None => true,
            },
            (QPhase::Evaluate, Reply::Eval(s)) => self.eval_fits(thread, s),
            (QPhase::Picker, Reply::Done) => true,
            (QPhase::Next, Reply::Move(m)) => match m {
                Some(p) => search::is_playable(&self.pos.board, p.mv),
                None => true,
            },
            (QPhase::Make(_), Reply::Reached(p)) => p.is_valid(),
            (QPhase::Child(_), Reply::Child(s)) => thread.scale.has(s),
            (QPhase::Unmake(..), Reply::Done) => true,
            _ => false,
        }
    }

    /// Takes a reply, and says what the node does next.
    pub fn step(&mut self, thread: &mut ThreadCtx, reply: Reply) -> (out: Outcome)
        requires
            old(thread)@.wf(),
            old(self).wf(old(thread)@.scale),
            old(self).answered_by(old(thread)@, reply),
        ensures
            (QStep { node: *final(self), thread: final(thread)@, out }) == next(
                *old(self),
                old(thread)@,
                reply,
            ),
    {
        proof {
            reveal(next);
        }
        match (self.phase, reply) {
            (QPhase::Entry, Reply::Stop(stop)) => {
                if stop {
                    thread.abort_now = true;
                    self.end(Score(0))
                } else {
                    self.enter(thread)
                }
            },
            (QPhase::Leaf, Reply::Eval(eval)) => self.end(eval),
            (QPhase::Probe, Reply::Entry(entry)) => self.probed(thread, entry),
            (QPhase::Evaluate, Reply::Eval(eval)) => self.evaluated(thread, eval),
            (QPhase::Picker, Reply::Done) => self.ask(QPhase::Next, Query::NextMove),
            (QPhase::Next, Reply::Move(pick)) => self.picked(thread, pick),
            (QPhase::Make(mv), Reply::Reached(pos)) => {
                let params = Params {
                    kind: self.params.kind.next(),
                    depth: 0,
                    ply: self.params.ply + 1,
                    alpha: negate(self.params.beta),
                    beta: negate(self.alpha),
                    cutnode: false,
                };
                self.phase = QPhase::Child(mv);
                Outcome::Quiesce(params, pos)
            },
            (QPhase::Child(mv), Reply::Child(s)) => self.ask(
                QPhase::Unmake(mv, negate(s)),
                Query::UnmakeMove,
            ),
            (QPhase::Unmake(mv, score), Reply::Done) => self.tried(thread, mv, score),
            _ => self.overrun(),
        }
    }
}

} // verus!
