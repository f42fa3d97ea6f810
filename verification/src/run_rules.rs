//! The rules of a run, over plain values: who is asked, who is started, and who gets a score.
use vstd::prelude::*;

use crate::board::Position;
use crate::node::{Outcome, Params, Reply};
use crate::qsearch;
use crate::run;
use crate::run::{FrameView, Pending, Request, RunStep, RunView};
use crate::score::Score;
use crate::search;
use crate::thread::ThreadView;

verus! {

/// What the node on top of these others does next, the run does: it has its query answered, it
/// starts its child, it hands its score to the node below, or, without one, it is finished.
pub open spec fn follows(below: Seq<FrameView>, top: FrameView, then: ThreadView, out: Outcome, s: RunStep) -> bool {
    &&& s.thread == then
    &&& out matches Outcome::Ask(query) ==> s.request == Request::Ask(query) && s.run.pending is Answer
        && s.run.frames == below.push(top)
    &&& out matches Outcome::Search(p, pos) ==> s.request is Turn && s.run.pending == Pending::Search(p, pos)
        && s.run.frames == below.push(top)
    &&& out matches Outcome::Quiesce(p, pos) ==> s.request is Turn && s.run.pending == Pending::Quiesce(p, pos)
        && s.run.frames == below.push(top)
    &&& out matches Outcome::Done(score) ==> s.run.frames == below && (if below.len() == 0 {
        s.request == Request::Finished(score) && s.run.pending == Pending::Finished(score)
    } else {
        s.request is Turn && s.run.pending == Pending::Return(score)
    })
    &&& out is Overrun ==> s.request is Overrun && s.run.pending is Stuck
}

proof fn lemma_follows(below: Seq<FrameView>, top: FrameView, then: ThreadView, out: Outcome)
    ensures
        follows(below, top, then, out, run::settle(below.push(top), then, out)),
{
    assert(below.push(top).drop_last() =~= below);
    if below.len() == 0 {
        assert(below =~= Seq::<FrameView>::empty());
    }
}

/// An answer goes to the node on top, and to no other one.
pub proof fn law_answers_go_to_the_top(below: Seq<FrameView>, top: FrameView, t: ThreadView, reply: Reply)
    ensures
        ({
            let s = run::advanced(RunView { frames: below.push(top), pending: Pending::Answer }, t, reply);
            match top {
                FrameView::Main(n) => follows(
                    below,
                    FrameView::Main(search::next(n, t, reply).node),
                    search::next(n, t, reply).thread,
                    search::next(n, t, reply).out,
                    s,
                ),
                FrameView::Quiet(n) => follows(
                    below,
                    FrameView::Quiet(qsearch::next(n, t, reply).node),
                    qsearch::next(n, t, reply).thread,
                    qsearch::next(n, t, reply).out,
                    s,
                ),
            }
        }),
{
    reveal(run::advanced);
    assert(below.push(top).drop_last() =~= below);
    assert(below.push(top).last() == top);
    match top {
        FrameView::Main(n) => {
            let step = search::next(n, t, reply);
            lemma_follows(below, FrameView::Main(step.node), step.thread, step.out);
        },
        FrameView::Quiet(n) => {
            let step = qsearch::next(n, t, reply);
            lemma_follows(below, FrameView::Quiet(step.node), step.thread, step.out);
        },
    }
}

/// The score of a finished node goes, as it is, to the node that waits for it; what else the
/// run is told then does not matter.
pub proof fn law_scores_go_to_the_parent(
    below: Seq<FrameView>,
    parent: FrameView,
    t: ThreadView,
    score: Score,
    reply: Reply,
)
    ensures
        run::advanced(RunView { frames: below.push(parent), pending: Pending::Return(score) }, t, reply)
            == run::advanced(RunView { frames: below.push(parent), pending: Pending::Answer }, t, Reply::Child(score)),
{
    reveal(run::advanced);
}

/// A child is started on top of the others, of its own kind of search, with its own window and
/// position.
pub proof fn law_children_are_started(
    below: Seq<FrameView>,
    params: Params,
    pos: Position,
    t: ThreadView,
    reply: Reply,
)
    ensures
        ({
            let step = search::begin(params, pos, t);
            follows(
                below,
                FrameView::Main(step.node),
                step.thread,
                step.out,
                run::advanced(RunView { frames: below, pending: Pending::Search(params, pos) }, t, reply),
            )
        }),
        ({
            let step = qsearch::begin(params, pos, t);
            follows(
                below,
                FrameView::Quiet(step.node),
                step.thread,
                step.out,
                run::advanced(RunView { frames: below, pending: Pending::Quiesce(params, pos) }, t, reply),
            )
        }),
{
    reveal(run::advanced);
    let a = search::begin(params, pos, t);
    lemma_follows(below, FrameView::Main(a.node), a.thread, a.out);
    let b = qsearch::begin(params, pos, t);
    lemma_follows(below, FrameView::Quiet(b.node), b.thread, b.out);
}

/// A finished run keeps its score, and a run that cannot go on stays so.
pub proof fn law_ends_are_final(run: RunView, t: ThreadView, reply: Reply)
    ensures
        ({
            let s = run::advanced(run, t, reply);
            &&& run.pending matches Pending::Finished(score) ==> s.run == run && s.thread == t && s.request
                == Request::Finished(score)
            &&& run.pending is Stuck ==> s.run == run && s.thread == t && s.request is Overrun
        }),
{
    reveal(run::advanced);
}

/// A run that waits for an answer takes exactly those that its node on top takes, and any
/// other run takes every reply.
pub proof fn law_replies_that_are_taken(run: RunView, t: ThreadView, reply: Reply)
    ensures
        run.answered_by(t, reply) <==> (run.pending is Answer ==> match run.frames[run.frames.len() - 1] {
            FrameView::Main(n) => n.answered_by(t.scale, reply),
            FrameView::Quiet(n) => n.answered_by(t, reply),
        }),
{
}

} // verus!
