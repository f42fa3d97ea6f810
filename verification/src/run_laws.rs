//! What holds of a whole run.
use vstd::prelude::*;

use crate::node::{Made, Outcome, Query, Reply};
use crate::qsearch;
use crate::run;
use crate::run::{FrameView, Pending, Request, RunView};
use crate::search;
use crate::thread::ThreadView;

verus! {

/// What a request does to the moves that are on the board.
pub open spec fn played(before: Seq<Made>, request: Request, after: Seq<Made>) -> bool {
    match request {
        Request::Ask(Query::MakeMove(mv)) => after == before.push(Made::Move(mv)),
        Request::Ask(Query::MakeNull) => after == before.push(Made::Null),
        Request::Ask(Query::UnmakeMove) => before.len() > 0 && before.last() is Move && after == before.drop_last(),
        Request::Ask(Query::UnmakeNull) => before.len() > 0 && before.last() is Null && after
            == before.drop_last(),
        Request::Finished(_) => before.len() == 0 && after.len() == 0,
        Request::Overrun => true,
        _ => after == before,
    }
}

/// Each node lies as many plies below the first as moves have been made below it, and
/// so does a node that is about to be started.
pub open spec fn aligned(run: RunView, base: int) -> bool {
    &&& forall|i: int|
        0 <= i < run.frames.len() ==> (#[trigger] run.frames[i]).ply() == base + run::path(
            run.frames.take(i),
        ).len()
    &&& run.pending matches Pending::Search(params, _) ==> params.ply == base + run::path(run.frames).len()
    &&& run.pending matches Pending::Quiesce(params, _) ==> params.ply == base + run::path(run.frames).len()
}

/// What one more node adds to what is made on the board.
pub proof fn lemma_path_push(below: Seq<FrameView>, top: FrameView)
    ensures
        run::path(below.push(top)) == match top.made() {
            Some(made) => run::path(below).push(made),
            None => run::path(below),
        },
{
    assert(below.push(top).drop_last() =~= below);
}

proof fn lemma_settle_lawful(
    below: Seq<FrameView>,
    before: Option<Made>,
    top: FrameView,
    t: ThreadView,
    out: Outcome,
    base: int,
)
    requires
        crate::node::carried_out(before, out, top.made()),
        out matches Outcome::Search(params, _) ==> params.ply == top.ply() + crate::node::plies(top.made()),
        out matches Outcome::Quiesce(params, _) ==> params.ply == top.ply() + crate::node::plies(top.made()),
    ensures
        ({
            let s = run::settle(below.push(top), t, out);
            let old_path = match before {
                Some(made) => run::path(below).push(made),
                None => run::path(below),
            };
            &&& s.request is Finished ==> run::path(s.run.frames).len() == 0
            &&& s.request is Finished ==> below.len() == 0
            &&& played(old_path, s.request, run::path(s.run.frames)) || s.request is Finished
            &&& (forall|i: int|
                0 <= i < below.len() ==> (#[trigger] below[i]).ply() == base + run::path(below.take(i)).len())
                && top.ply() == base + run::path(below).len() ==> aligned(s.run, base)
        }),
{
    lemma_path_push(below, top);
    let all = below.push(top);
    assert(all.drop_last() =~= below);
    if let Some(made) = before {
        assert(run::path(below).push(made).drop_last() =~= run::path(below));
    }
    assert forall|i: int| 0 <= i < all.len() implies #[trigger] all.take(i) == (if i < below.len() {
        below.take(i)
    } else {
        below
    }) by {
        assert(all.take(i) =~= (if i < below.len() {
            below.take(i)
        } else {
            below
        }));
    }
    let s = run::settle(all, t, out);
    if (forall|i: int|
        0 <= i < below.len() ==> (#[trigger] below[i]).ply() == base + run::path(below.take(i)).len())
        && top.ply() == base + run::path(below).len() {
        assert forall|i: int| 0 <= i < s.run.frames.len() implies (#[trigger] s.run.frames[i]).ply() == base
            + run::path(s.run.frames.take(i)).len() by {
            if i < below.len() {
                assert(s.run.frames[i] == below[i]);
                assert(s.run.frames.take(i) =~= below.take(i));
            } else {
                assert(s.run.frames.take(i) =~= below);
            }
        }
    }
}

/// A run keeps the board in step with its stack: it makes a move or a pass only on top
/// of what is made, takes back only what was made last, and is finished only when
/// everything is taken back. Every node sits at the ply that the moves made below it
/// lead to.
pub proof fn law_board_is_restored(run: RunView, t: ThreadView, reply: Reply, base: int)
    requires
        t.wf(),
        run.wf(t.scale),
        run.answered_by(t, reply),
    ensures
        played(
            run::path(run.frames),
            run::advanced(run, t, reply).request,
            run::path(run::advanced(run, t, reply).run.frames),
        ),
        aligned(run, base) ==> aligned(run::advanced(run, t, reply).run, base),
{
    reveal(run::advanced);
    let reply = match run.pending {
        Pending::Return(score) => Reply::Child(score),
        _ => reply,
    };
    match run.pending {
        Pending::Answer | Pending::Return(_) => {
            let below = run.frames.drop_last();
            let top = run.frames.last();
            assert(run.frames =~= below.push(top));
            lemma_path_push(below, top);
            assert(top.wf(t.scale) && top.answered_by(t, reply)) by {
                if run.pending is Return {
                    let last = run.frames[run.frames.len() - 1];
                    assert(last.wf(t.scale) && last.awaits_child());
                }
            }
            if aligned(run, base) {
                assert forall|i: int| 0 <= i < below.len() implies (#[trigger] below[i]).ply() == base
                    + run::path(below.take(i)).len() by {
                    assert(below[i] == run.frames[i]);
                    assert(run.frames.take(i) =~= below.take(i));
                }
                assert(run.frames[run.frames.len() - 1].ply() == base + run::path(
                    run.frames.take(run.frames.len() - 1),
                ).len());
                assert(run.frames.take(run.frames.len() - 1) =~= below);
            }
            match top {
                FrameView::Main(n) => {
                    crate::search_laws::law_step_is_sound(n, t, reply);
                    let step = search::next(n, t, reply);
                    lemma_settle_lawful(
                        below,
                        n.made(),
                        FrameView::Main(step.node),
                        step.thread,
                        step.out,
                        base,
                    );
                },
                FrameView::Quiet(n) => {
                    crate::qsearch_laws::law_step_is_sound(n, t, reply);
                    let step = qsearch::next(n, t, reply);
                    lemma_settle_lawful(
                        below,
                        n.made(),
                        FrameView::Quiet(step.node),
                        step.thread,
                        step.out,
                        base,
                    );
                },
            }
        },
        Pending::Search(params, pos) => {
            crate::search_laws::law_begin_is_sound(params, pos, t);
            let step = search::begin(params, pos, t);
            lemma_settle_lawful(
                run.frames,
                None,
                FrameView::Main(step.node),
                step.thread,
                step.out,
                base,
            );
        },
        Pending::Quiesce(params, pos) => {
            crate::qsearch_laws::law_begin_is_sound(params, pos, t);
            let step = qsearch::begin(params, pos, t);
            lemma_settle_lawful(
                run.frames,
                None,
                FrameView::Quiet(step.node),
                step.thread,
                step.out,
                base,
            );
        },
        Pending::Finished(_) => {
            assert(run::path(run.frames).len() == 0);
        },
        Pending::Stuck => {},
    }
}

pub open spec fn under_way(frame: FrameView) -> bool {
    match frame {
        FrameView::Main(n) => crate::search_laws::under_way(n),
        FrameView::Quiet(n) => crate::qsearch_laws::under_way(n),
    }
}

/// Every node of the run is under way, and no root is about to be started.
pub open spec fn winding_down(run: RunView) -> bool {
    &&& forall|i: int| 0 <= i < run.frames.len() ==> under_way(#[trigger] run.frames[i])
    &&& run.pending matches Pending::Search(params, _) ==> !params.kind.root
}

proof fn lemma_settle_winds_down(below: Seq<FrameView>, top: FrameView, t: ThreadView, out: Outcome)
    requires
        forall|i: int| 0 <= i < below.len() ==> under_way(#[trigger] below[i]),
        out is Done || under_way(top),
        !(out is Overrun),
        !(out matches Outcome::Ask(Query::Store(_))),
        out matches Outcome::Search(params, _) ==> !params.kind.root,
    ensures
        winding_down(run::settle(below.push(top), t, out).run),
        run::settle(below.push(top), t, out).thread == t,
        !(run::settle(below.push(top), t, out).request is Overrun),
        !(run::settle(below.push(top), t, out).request matches Request::Ask(Query::Store(_))),
{
    assert(below.push(top).drop_last() =~= below);
}

/// Once the search is to end and every node of the run is under way, the run learns
/// nothing, stores nothing and counts no node any more.
pub proof fn law_aborted_run_learns_nothing(run: RunView, t: ThreadView, reply: Reply)
    requires
        t.wf(),
        run.wf(t.scale),
        run.answered_by(t, reply),
        t.abort_now,
        winding_down(run),
        !(run.pending is Stuck),
    ensures
        ({
            let step = run::advanced(run, t, reply);
            &&& step.thread.tables == t.tables
            &&& step.thread.nodes == t.nodes
            &&& step.thread.abort_now
            &&& !(step.request matches Request::Ask(Query::Store(_)))
            &&& !(step.request is Overrun)
            &&& winding_down(step.run)
        }),
{
    reveal(run::advanced);
    let reply = match run.pending {
        Pending::Return(score) => Reply::Child(score),
        _ => reply,
    };
    match run.pending {
        Pending::Answer | Pending::Return(_) => {
            let below = run.frames.drop_last();
            let top = run.frames.last();
            assert(under_way(run.frames[run.frames.len() - 1]));
            assert(top.answered_by(t, reply)) by {
                if run.pending is Return {
                    let last = run.frames[run.frames.len() - 1];
                    assert(last.wf(t.scale) && last.awaits_child());
                }
            }
            assert forall|i: int| 0 <= i < below.len() implies under_way(#[trigger] below[i]) by {
                assert(below[i] == run.frames[i]);
            }
            match top {
                FrameView::Main(n) => {
                    crate::search_laws::law_abort_winds_down(n, t, reply);
                    let step = search::next(n, t, reply);
                    lemma_settle_winds_down(below, FrameView::Main(step.node), step.thread, step.out);
                },
                FrameView::Quiet(n) => {
                    crate::qsearch_laws::law_abort_winds_down(n, t, reply);
                    let step = qsearch::next(n, t, reply);
                    lemma_settle_winds_down(below, FrameView::Quiet(step.node), step.thread, step.out);
                },
            }
        },
        Pending::Search(params, pos) => {
            let step = search::begin(params, pos, t);
            lemma_settle_winds_down(run.frames, FrameView::Main(step.node), step.thread, step.out);
        },
        Pending::Quiesce(params, pos) => {
            let step = qsearch::begin(params, pos, t);
            lemma_settle_winds_down(run.frames, FrameView::Quiet(step.node), step.thread, step.out);
        },
        _ => {},
    }
}

pub open spec fn frame_effort(frame: FrameView) -> nat {
    match frame {
        FrameView::Main(n) => crate::search_laws::effort(n),
        FrameView::Quiet(n) => crate::qsearch_laws::effort(n),
    }
}

pub open spec fn stack_effort(frames: Seq<FrameView>) -> nat
    decreases frames.len(),
{
    if frames.len() == 0 {
        0
    } else {
        stack_effort(frames.drop_last()) + frame_effort(frames.last())
    }
}

/// At most how often a run is still advanced once the search is to end: three times for
/// each step of a node, and for what is pending.
pub open spec fn effort(run: RunView) -> nat {
    3 * stack_effort(run.frames) + match run.pending {
        Pending::Search(..) => 2,
        Pending::Quiesce(..) => 2,
        Pending::Return(_) => 1,
        _ => 0nat,
    }
}

proof fn lemma_settle_effort(below: Seq<FrameView>, top: FrameView, t: ThreadView, out: Outcome)
    ensures
        effort(run::settle(below.push(top), t, out).run) <= 3 * stack_effort(below) + (if out is Done {
            1
        } else {
            3 * frame_effort(top) + 2
        }),
{
    assert(below.push(top).drop_last() =~= below);
    if out is Done && below.len() == 0 {
        assert(run::settle(below.push(top), t, out).run.frames.len() == 0);
    }
}

/// Once the search is to end and every node of the run is under way, the run is finished
/// after boundedly many steps, whatever the replies are.
pub proof fn law_aborted_run_ends(run: RunView, t: ThreadView, reply: Reply)
    requires
        t.wf(),
        run.wf(t.scale),
        run.answered_by(t, reply),
        t.abort_now,
        winding_down(run),
        !(run.pending is Stuck),
    ensures
        run::advanced(run, t, reply).request is Finished || effort(run::advanced(run, t, reply).run) < effort(run),
        run.frames.len() > 0 ==> effort(run) > 0,
{
    reveal(run::advanced);
    let reply = match run.pending {
        Pending::Return(score) => Reply::Child(score),
        _ => reply,
    };
    match run.pending {
        Pending::Answer | Pending::Return(_) => {
            let below = run.frames.drop_last();
            let top = run.frames.last();
            assert(under_way(run.frames[run.frames.len() - 1]));
            assert(top.answered_by(t, reply)) by {
                if run.pending is Return {
                    let last = run.frames[run.frames.len() - 1];
                    assert(last.wf(t.scale) && last.awaits_child());
                }
            }
            match top {
                FrameView::Main(n) => {
                    crate::search_laws::law_abort_winds_down(n, t, reply);
                    let step = search::next(n, t, reply);
                    lemma_settle_effort(below, FrameView::Main(step.node), step.thread, step.out);
                },
                FrameView::Quiet(n) => {
                    crate::qsearch_laws::law_abort_winds_down(n, t, reply);
                    let step = qsearch::next(n, t, reply);
                    lemma_settle_effort(below, FrameView::Quiet(step.node), step.thread, step.out);
                },
            }
        },
        Pending::Search(params, pos) => {
            let step = search::begin(params, pos, t);
            lemma_settle_effort(run.frames, FrameView::Main(step.node), step.thread, step.out);
        },
        Pending::Quiesce(params, pos) => {
            let step = qsearch::begin(params, pos, t);
            lemma_settle_effort(run.frames, FrameView::Quiet(step.node), step.thread, step.out);
        },
        _ => {},
    }
}

/// When a node is told that the time is up, the whole run winds down.
pub proof fn law_stop_winds_the_run_down(run: RunView, t: ThreadView)
    requires
        t.wf(),
        run.wf(t.scale),
        run.pending is Answer,
        run.answered_by(t, Reply::Stop(true)),
    ensures
        run::advanced(run, t, Reply::Stop(true)).thread == t.aborted(),
        winding_down(run::advanced(run, t, Reply::Stop(true)).run),
        !(run::advanced(run, t, Reply::Stop(true)).run.pending is Stuck),
{
    reveal(search::next);
    reveal(qsearch::next);
    reveal(run::advanced);
    let below = run.frames.drop_last();
    assert forall|i: int| 0 <= i < below.len() implies under_way(#[trigger] below[i]) by {
        assert(below[i].awaits_child());
    }
    match run.frames.last() {
        FrameView::Main(n) => {
            let step = search::next(n, t, Reply::Stop(true));
            lemma_settle_winds_down(below, FrameView::Main(step.node), step.thread, step.out);
        },
        FrameView::Quiet(n) => {
            let step = qsearch::next(n, t, Reply::Stop(true));
            lemma_settle_winds_down(below, FrameView::Quiet(step.node), step.thread, step.out);
        },
    }
}

} // verus!
