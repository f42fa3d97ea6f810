//! The search of a tree: nodes on a stack, each waiting for the one above it.
use vstd::prelude::*;

use crate::board::Position;
use crate::node::{Made, Outcome, Params, Query, Reply};
use crate::qsearch;
use crate::qsearch::QNode;
use crate::score::{Score, ScoreScale};
use crate::search;
use crate::search::{NodeView, SearchNode};
use crate::thread::{ThreadCtx, ThreadView};

verus! {

/// A node of either search.
pub enum Frame {
    Main(SearchNode),
    Quiet(QNode),
}

/// A [`Frame`] with its lists as sequences.
#[verifier::ext_equal]
pub enum FrameView {
    Main(NodeView),
    Quiet(QNode),
}

impl View for Frame {
    type V = FrameView;

    open spec fn view(&self) -> FrameView {
        match self {
            Frame::Main(n) => FrameView::Main(n@),
            Frame::Quiet(n) => FrameView::Quiet(*n),
        }
    }
}

impl FrameView {
    pub open spec fn wf(self, scale: ScoreScale) -> bool {
        match self {
            FrameView::Main(n) => n.wf(scale),
            FrameView::Quiet(n) => n.wf(scale),
        }
    }

    pub open spec fn awaits_child(self) -> bool {
        match self {
            FrameView::Main(n) => n.awaits_child(),
            FrameView::Quiet(n) => n.awaits_child(),
        }
    }

    pub open spec fn made(self) -> Option<Made> {
        match self {
            FrameView::Main(n) => n.made(),
            FrameView::Quiet(n) => n.made(),
        }
    }

    pub open spec fn ply(self) -> int {
        match self {
            FrameView::Main(n) => n.core.params.ply as int,
            FrameView::Quiet(n) => n.params.ply as int,
        }
    }

    pub open spec fn answered_by(self, t: ThreadView, reply: Reply) -> bool {
        match self {
            FrameView::Main(n) => n.answered_by(t.scale, reply),
            FrameView::Quiet(n) => n.answered_by(t, reply),
        }
    }
}

/// What a run does when it is next advanced.
#[derive(Clone, Copy, Debug)]
pub enum Pending {
    /// It hands an answer to the node on top.
    Answer,
    /// It starts a node of the main search.
    Search(Params, Position),
    /// It starts a node of the quiescence search.
    Quiesce(Params, Position),
    /// It hands the score of a finished node to the node below.
    Return(Score),
    /// Nothing: the first node is finished.
    Finished(Score),
    /// Nothing: a line ran past the end of the search stack.
    Stuck,
}

/// What a run needs to be advanced again.
#[derive(Clone, Copy, Debug)]
pub enum Request {
    /// An answer to this query.
    Ask(Query),
    /// Nothing; any reply will do.
    Turn,
    /// The run is over, with this score.
    Finished(Score),
    /// The run cannot go on.
    Overrun,
}

/// A search of a tree.
pub struct Run {
    pub frames: Vec<Frame>,
    pub pending: Pending,
}

/// A [`Run`] with its stack as a sequence.
#[verifier::ext_equal]
pub struct RunView {
    pub frames: Seq<FrameView>,
    pub pending: Pending,
}

impl View for Run {
    type V = RunView;

    open spec fn view(&self) -> RunView {
        RunView { frames: self.frames@.map_values(|f: Frame| f@), pending: self.pending }
    }
}

/// What a run and its thread are after an advance, and what the run needs next.
#[verifier::ext_equal]
pub struct RunStep {
    pub run: RunView,
    pub thread: ThreadView,
    pub request: Request,
}

/// Every node waits for a child.
pub open spec fn all_wait(frames: Seq<FrameView>, scale: ScoreScale) -> bool {
    forall|i: int| 0 <= i < frames.len() ==> (#[trigger] frames[i]).wf(scale) && frames[i].awaits_child()
}

impl RunView {
    /// Every node but the one on top waits for its child, and the one on top waits for
    /// what is pending.
    pub open spec fn wf(self, scale: ScoreScale) -> bool {
        match self.pending {
            Pending::Answer => {
                &&& self.frames.len() > 0
                &&& all_wait(self.frames.drop_last(), scale)
                &&& self.frames.last().wf(scale)
                &&& !self.frames.last().awaits_child()
            },
            Pending::Search(params, pos) => all_wait(self.frames, scale) && params.wf(scale) && pos.wf(),
            Pending::Quiesce(params, pos) => all_wait(self.frames, scale) && params.wf(scale) && pos.wf(),
            Pending::Return(score) => {
                &&& self.frames.len() > 0
                &&& all_wait(self.frames, scale)
                &&& scale.holds(score)
            },
            Pending::Finished(score) => self.frames.len() == 0 && scale.holds(score),
            Pending::Stuck => true,
        }
    }

    /// The reply is one that the run can be advanced with.
    pub open spec fn answered_by(self, t: ThreadView, reply: Reply) -> bool {
        self.pending is Answer ==> self.frames.last().answered_by(t, reply)
    }
}

/// The node on top has taken a step.
pub open spec fn settle(frames: Seq<FrameView>, t: ThreadView, out: Outcome) -> RunStep {
    match out {
        Outcome::Ask(query) => RunStep {
            run: RunView { frames, pending: Pending::Answer },
            thread: t,
            request: Request::Ask(query),
        },
        Outcome::Search(params, pos) => RunStep {
            run: RunView { frames, pending: Pending::Search(params, pos) },
            thread: t,
            request: Request::Turn,
        },
        Outcome::Quiesce(params, pos) => RunStep {
            run: RunView { frames, pending: Pending::Quiesce(params, pos) },
            thread: t,
            request: Request::Turn,
        },
        Outcome::Done(score) => if frames.len() == 1 {
            RunStep {
                run: RunView { frames: Seq::empty(), pending: Pending::Finished(score) },
                thread: t,
                request: Request::Finished(score),
            }
        } else {
            RunStep {
                run: RunView { frames: frames.drop_last(), pending: Pending::Return(score) },
                thread: t,
                request: Request::Turn,
            }
        },
        Outcome::Overrun => RunStep {
            run: RunView { frames, pending: Pending::Stuck },
            thread: t,
            request: Request::Overrun,
        },
    }
}

/// The node on top takes a reply.
pub open spec fn feed(frames: Seq<FrameView>, t: ThreadView, reply: Reply) -> RunStep {
    match frames.last() {
        FrameView::Main(n) => {
            let step = search::next(n, t, reply);
            settle(frames.drop_last().push(FrameView::Main(step.node)), step.thread, step.out)
        },
        FrameView::Quiet(n) => {
            let step = qsearch::next(n, t, reply);
            settle(frames.drop_last().push(FrameView::Quiet(step.node)), step.thread, step.out)
        },
    }
}

/// A run goes on by what is pending.
#[verifier::opaque]
pub open spec fn advanced(run: RunView, t: ThreadView, reply: Reply) -> RunStep {
    match run.pending {
        Pending::Answer => feed(run.frames, t, reply),
        Pending::Search(params, pos) => {
            let step = search::begin(params, pos, t);
            settle(run.frames.push(FrameView::Main(step.node)), step.thread, step.out)
        },
        Pending::Quiesce(params, pos) => {
            let step = qsearch::begin(params, pos, t);
            settle(run.frames.push(FrameView::Quiet(step.node)), step.thread, step.out)
        },
        Pending::Return(score) => feed(run.frames, t, Reply::Child(score)),
        Pending::Finished(score) => RunStep { run, thread: t, request: Request::Finished(score) },
        Pending::Stuck => RunStep { run, thread: t, request: Request::Overrun },
    }
}

/// What the nodes of a stack have made on the board, from the first one up.
pub open spec fn path(frames: Seq<FrameView>) -> Seq<Made>
    decreases frames.len(),
{
    if frames.len() == 0 {
        Seq::empty()
    } else {
        match frames.last().made() {
            Some(made) => path(frames.drop_last()).push(made),
            None => path(frames.drop_last()),
        }
    }
}

proof fn lemma_settle(
    below: Seq<FrameView>,
    before: Option<Made>,
    top: FrameView,
    t: ThreadView,
    out: Outcome,
    scale: ScoreScale,
)
    requires
        all_wait(below, scale),
        t.scale == scale,
        crate::node::carried_out(before, out, top.made()),
        top.awaits_child() == (out is Search || out is Quiesce),
        match out {
            Outcome::Ask(_) => top.wf(scale),
            Outcome::Search(params, pos) => top.wf(scale) && params.wf(scale) && pos.wf(),
            Outcome::Quiesce(params, pos) => top.wf(scale) && params.wf(scale) && pos.wf(),
            Outcome::Done(score) => scale.holds(score),
            Outcome::Overrun => true,
        },
    ensures
        settle(below.push(top), t, out).run.wf(scale),
        settle(below.push(top), t, out).thread == t,
{
    assert(below.push(top).drop_last() =~= below);
}

/// A reply of the right kind moves a sound run to a sound run.
pub proof fn law_run_is_sound(run: RunView, t: ThreadView, reply: Reply)
    requires
        t.wf(),
        run.wf(t.scale),
        run.answered_by(t, reply),
    ensures
        advanced(run, t, reply).run.wf(t.scale),
        advanced(run, t, reply).thread.wf(),
        advanced(run, t, reply).thread.scale == t.scale,
{
    reveal(advanced);
    let reply = match run.pending {
        Pending::Return(score) => Reply::Child(score),
        _ => reply,
    };
    match run.pending {
        Pending::Answer | Pending::Return(_) => {
            let below = run.frames.drop_last();
            assert(all_wait(below, t.scale)) by {
                assert forall|i: int| 0 <= i < below.len() implies (#[trigger] below[i]).wf(t.scale)
                    && below[i].awaits_child() by {
                    if run.pending is Return {
                        assert(below[i] == run.frames[i]);
                    }
                }
            }
            assert(run.frames.last().wf(t.scale)) by {
                if run.pending is Return {
                    assert(run.frames[run.frames.len() - 1].wf(t.scale));
                }
            }
            assert(run.frames.last().answered_by(t, reply)) by {
                if run.pending is Return {
                    assert(run.frames[run.frames.len() - 1].awaits_child());
                }
            }
            match run.frames.last() {
                FrameView::Main(n) => {
                    crate::search_laws::law_step_is_sound(n, t, reply);
                    let step = search::next(n, t, reply);
                    lemma_settle(
                        below,
                        n.made(),
                        FrameView::Main(step.node),
                        step.thread,
                        step.out,
                        t.scale,
                    );
                },
                FrameView::Quiet(n) => {
                    crate::qsearch_laws::law_step_is_sound(n, t, reply);
                    let step = qsearch::next(n, t, reply);
                    lemma_settle(
                        below,
                        n.made(),
                        FrameView::Quiet(step.node),
                        step.thread,
                        step.out,
                        t.scale,
                    );
                },
            }
        },
        Pending::Search(params, pos) => {
            crate::search_laws::law_begin_is_sound(params, pos, t);
            let step = search::begin(params, pos, t);
            lemma_settle(run.frames, None, FrameView::Main(step.node), step.thread, step.out, t.scale);
        },
        Pending::Quiesce(params, pos) => {
            crate::qsearch_laws::law_begin_is_sound(params, pos, t);
            let step = qsearch::begin(params, pos, t);
            lemma_settle(run.frames, None, FrameView::Quiet(step.node), step.thread, step.out, t.scale);
        },
        _ => {},
    }
}

impl Run {
    /// A run that has not begun: it will search a position with these parameters.
    pub fn new(params: Params, pos: Position) -> (run: Run)
        ensures
            run@ == (RunView { frames: Seq::empty(), pending: Pending::Search(params, pos) }),
    {
        let run = Run { frames: Vec::new(), pending: Pending::Search(params, pos) };
        assert(run@.frames =~= Seq::empty());
        run
    }

    /// The number of nodes on the stack.
    pub fn depth(&self) -> (n: usize)
        ensures
            n == self@.frames.len(),
    {
        self.frames.len()
    }

    /// Tests whether the run can be advanced with a reply.
    pub fn accepts(&self, thread: &ThreadCtx, reply: &Reply) -> (b: bool)
        requires
            thread@.wf(),
            self@.wf(thread@.scale),
        ensures
            b == self@.answered_by(thread@, *reply),
    {
        match self.pending {
            Pending::Answer => {
                let top: usize = self.frames.len() - 1;
                assert(self@.frames.last() == self.frames@[top as int]@);
                match &self.frames[top] {
                    Frame::Main(n) => n.accepts(&thread.scale, reply),
                    Frame::Quiet(n) => n.accepts(thread, reply),
                }
            },
            _ => true,
        }
    }

    /// Goes on with the run, and says what it needs next.
    pub fn advance(&mut self, thread: &mut ThreadCtx, reply: Reply) -> (request: Request)
        requires
            old(thread)@.wf(),
            old(self)@.wf(old(thread)@.scale),
            old(self)@.answered_by(old(thread)@, reply),
        ensures
            (RunStep { run: final(self)@, thread: final(thread)@, request }) == advanced(
                old(self)@,
                old(thread)@,
                reply,
            ),
            final(self)@.wf(final(thread)@.scale),
            final(thread)@.wf(),
            final(thread)@.scale == old(thread)@.scale,
    {
        proof {
            law_run_is_sound(self@, thread@, reply);
            reveal(advanced);
        }
        match self.pending {
            Pending::Answer => self.feed(thread, reply),
            Pending::Search(params, pos) => {
                let (node, out) = SearchNode::start(params, pos, thread);
                self.settle(Frame::Main(node), out)
            },
            Pending::Quiesce(params, pos) => {
                let (node, out) = QNode::start(params, pos, thread);
                self.settle(Frame::Quiet(node), out)
            },
            Pending::Return(score) => {
                proof {
                    let last = self@.frames[self@.frames.len() - 1];
                    assert(last.wf(thread@.scale) && last.awaits_child());
                }
                self.feed(thread, Reply::Child(score))
            },
            Pending::Finished(score) => Request::Finished(score),
            Pending::Stuck => Request::Overrun,
        }
    }

    fn settle(&mut self, frame: Frame, out: Outcome) -> (request: Request)
        ensures
            forall|t: ThreadView|
                (RunStep { run: final(self)@, thread: t, request }) == #[trigger] settle(
                    old(self)@.frames.push(frame@),
                    t,
                    out,
                ),
    {
        let ghost below = self@.frames;
        assert(below.push(frame@).drop_last() =~= below);
        match out {
            Outcome::Ask(query) => {
                self.push(frame);
                self.pending = Pending::Answer;
                Request::Ask(query)
            },
            Outcome::Search(params, pos) => {
                self.push(frame);
                self.pending = Pending::Search(params, pos);
                Request::Turn
            },
            Outcome::Quiesce(params, pos) => {
                self.push(frame);
                self.pending = Pending::Quiesce(params, pos);
                Request::Turn
            },
            Outcome::Done(score) => {
                if self.frames.len() == 0 {
                    self.pending = Pending::Finished(score);
                    assert(self@.frames =~= Seq::empty());
                    Request::Finished(score)
                } else {
                    self.pending = Pending::Return(score);
                    assert(self@.frames =~= below);
                    Request::Turn
                }
            },
            Outcome::Overrun => {
                self.push(frame);
                self.pending = Pending::Stuck;
                Request::Overrun
            },
        }
    }

    fn push(&mut self, frame: Frame)
        ensures
            final(self)@ == (RunView { frames: old(self)@.frames.push(frame@), ..old(self)@ }),
    {
        self.frames.push(frame);
        assert(self@.frames =~= old(self)@.frames.push(frame@));
    }

    fn feed(&mut self, thread: &mut ThreadCtx, reply: Reply) -> (request: Request)
        requires
            old(thread)@.wf(),
            old(self)@.frames.len() > 0,
            old(self)@.frames.last().wf(old(thread)@.scale),
            old(self)@.frames.last().answered_by(old(thread)@, reply),
        ensures
            (RunStep { run: final(self)@, thread: final(thread)@, request }) == feed(
                old(self)@.frames,
                old(thread)@,
                reply,
            ),
    {
        let ghost before = self@.frames;
        let top = self.frames.pop().unwrap();
        assert(top@ == before.last());
        assert(self@.frames =~= before.drop_last());
        match top {
            Frame::Main(mut node) => {
                let out = node.step(thread, reply);
                self.settle(Frame::Main(node), out)
            },
            Frame::Quiet(mut node) => {
                let out = node.step(thread, reply);
                self.settle(Frame::Quiet(node), out)
            },
        }
    }
}

} // verus!
