//! What becomes of the marks of singular searches in the course of a run.
use vstd::prelude::*;

use crate::board::{Move, Position};
use crate::course;
use crate::node::{Outcome, Params, Query, Reply};
use crate::qsearch;
use crate::run;
use crate::run::{FrameView, Pending, Request, RunView};
use crate::search;
use crate::search::{NodeView, Phase};
use crate::search_laws;
use crate::thread::{EntryView, ThreadView};

verus! {

/// The marks on the stack: for each ply the move that a singular search there leaves out.
pub open spec fn marks(t: ThreadView) -> Seq<Option<Move>> {
    t.stack.map_values(|e: EntryView| e.singular)
}

/// The marks that the nodes of a stack have set on top of these: each node that tests a
/// move for being the only good one has marked it.
pub open spec fn marked_by(frames: Seq<FrameView>, base: Seq<Option<Move>>) -> Seq<Option<Move>>
    decreases frames.len(),
{
    if frames.len() == 0 {
        base
    } else {
        let below = marked_by(frames.drop_last(), base);
        match frames.last() {
            FrameView::Main(n) => match n.core.phase {
                Phase::Singular(trial) => if n.core.params.ply < below.len() {
                    below.update(n.core.params.ply as int, Some(trial.mv))
                } else {
                    below
                },
                _ => below,
            },
            FrameView::Quiet(_) => below,
        }
    }
}

/// The node leaves out the move that was marked when it was started, and sets no mark on
/// top of another one.
pub open spec fn heeds(frame: FrameView, found: Seq<Option<Move>>) -> bool {
    frame matches FrameView::Main(n) ==> n.inside() ==> {
        &&& n.core.singular == found[n.core.params.ply as int]
        &&& search_laws::avoids(n)
        &&& n.core.phase is Singular ==> n.core.singular is None
    }
}

/// The marks on the stack are those that the nodes of the run have set, and each node heeds
/// those that it has found.
pub open spec fn kept(run: RunView, t: ThreadView, base: Seq<Option<Move>>) -> bool {
    run.pending is Stuck || {
        &&& base.len() == t.stack.len()
        &&& marks(t) == marked_by(run.frames, base)
        &&& forall|i: int|
            0 <= i < run.frames.len() ==> heeds(#[trigger] run.frames[i], marked_by(run.frames.take(i), base))
    }
}

proof fn lemma_marked_len(frames: Seq<FrameView>, base: Seq<Option<Move>>)
    ensures
        marked_by(frames, base).len() == base.len(),
    decreases frames.len(),
{
    if frames.len() > 0 {
        lemma_marked_len(frames.drop_last(), base);
    }
}

/// A node on top of well-kept nodes has taken a step, and the marks are what it and those
/// nodes have set.
proof fn lemma_settle_kept(
    below: Seq<FrameView>,
    top: FrameView,
    t: ThreadView,
    out: Outcome,
    base: Seq<Option<Move>>,
)
    requires
        base.len() == t.stack.len(),
        forall|i: int| 0 <= i < below.len() ==> heeds(#[trigger] below[i], marked_by(below.take(i), base)),
        out is Done ==> marks(t) == marked_by(below, base),
        !(out is Done || out is Overrun) ==> heeds(top, marked_by(below, base)) && marks(t) == marked_by(
            below.push(top),
            base,
        ),
    ensures
        kept(run::settle(below.push(top), t, out).run, t, base),
        run::settle(below.push(top), t, out).thread == t,
{
    let all = below.push(top);
    assert(all.drop_last() =~= below);
    let s = run::settle(all, t, out);
    if !(out is Overrun) {
        if out is Done {
            assert(s.run.frames =~= below);
        }
        assert forall|i: int| 0 <= i < s.run.frames.len() implies heeds(
            #[trigger] s.run.frames[i],
            marked_by(s.run.frames.take(i), base),
        ) by {
            if i < below.len() {
                assert(s.run.frames[i] == below[i]);
                assert(s.run.frames.take(i) =~= below.take(i));
            } else {
                assert(s.run.frames.take(i) =~= below);
            }
        }
    }
}

/// A node that does not look at moves is entered, ends, or hands on a score.
proof fn lemma_outside(n: NodeView, t: ThreadView, reply: Reply)
    requires
        n.answered_by(t.scale, reply),
        !n.inside(),
    ensures
        ({
            let step = search::next(n, t, reply);
            ||| n.core.phase is Entry && step == search::enter(n, t)
            ||| step.out is Done && step.thread.stack == t.stack && !step.node.inside()
        }),
{
    reveal(search::next);
}

/// A step of a node of the main search keeps the marks.
proof fn lemma_main_kept(
    below: Seq<FrameView>,
    n: NodeView,
    t: ThreadView,
    reply: Reply,
    base: Seq<Option<Move>>,
)
    requires
        t.wf(),
        n.wf(t.scale),
        n.answered_by(t.scale, reply),
        base.len() == t.stack.len(),
        heeds(FrameView::Main(n), marked_by(below, base)),
        marks(t) == marked_by(below.push(FrameView::Main(n)), base),
    ensures
        ({
            let step = search::next(n, t, reply);
            let found = marked_by(below, base);
            &&& base.len() == step.thread.stack.len()
            &&& step.out is Done ==> marks(step.thread) == found
            &&& !(step.out is Done || step.out is Overrun) ==> heeds(FrameView::Main(step.node), found) && marks(
                step.thread,
            ) == marked_by(below.push(FrameView::Main(step.node)), base)
        }),
{
    let step = search::next(n, t, reply);
    let found = marked_by(below, base);
    let ply = n.core.params.ply as int;
    lemma_marked_len(below, base);
    assert(below.push(FrameView::Main(n)).drop_last() =~= below);
    assert(below.push(FrameView::Main(step.node)).drop_last() =~= below);
    search_laws::law_step_is_sound(n, t, reply);
    if n.inside() {
        assert(marks(t)[ply] == t.stack[ply].singular);
        search_laws::law_singular_mark_is_put_back(n, t, reply);
        search_laws::law_singular_search_leaves_its_move_out(n, t, reply);
        if !(step.out is Overrun) {
            assert forall|i: int| 0 <= i < base.len() && i != ply implies marks(step.thread)[i] == found[i] by {
                assert(marks(t)[i] == t.stack[i].singular);
                assert(step.thread.stack[i] == t.stack[i]);
            }
            assert(marks(step.thread)[ply] == step.thread.stack[ply].singular);
            if step.node.core.phase is Singular {
                assert(marks(step.thread) =~= marked_by(below.push(FrameView::Main(step.node)), base));
            } else {
                assert(marks(step.thread) =~= found);
            }
        }
    } else {
        lemma_outside(n, t, reply);
        if n.core.phase is Entry {
            search_laws::law_entering(n, t);
        }
        if !(step.out is Overrun) {
            assert forall|i: int| 0 <= i < base.len() implies marks(step.thread)[i] == found[i] by {
                assert(marks(t)[i] == t.stack[i].singular);
                assert(step.thread.stack[i].singular == t.stack[i].singular);
            }
            assert(marks(step.thread) =~= found);
            if step.node.inside() {
                assert(marks(t)[ply] == t.stack[ply].singular);
            }
        }
    }
}

/// Whatever the reply is, a run keeps its marks.
pub proof fn law_marks_are_kept(run: RunView, t: ThreadView, reply: Reply, base: Seq<Option<Move>>)
    requires
        t.wf(),
        run.wf(t.scale),
        run.answered_by(t, reply),
        kept(run, t, base),
    ensures
        kept(run::advanced(run, t, reply).run, run::advanced(run, t, reply).thread, base),
{
    reveal(run::advanced);
    let reply = match run.pending {
        Pending::Return(score) => Reply::Child(score),
        _ => reply,
    };
    match run.pending {
        Pending::Answer | Pending::Return(_) => {
            let below = run.frames.drop_last();
            let top = run.frames.last();
            assert(run.frames =~= below.push(top));
            assert(top.wf(t.scale) && top.answered_by(t, reply)) by {
                if run.pending is Return {
                    let last = run.frames[run.frames.len() - 1];
                    assert(last.wf(t.scale) && last.awaits_child());
                }
            }
            assert(heeds(top, marked_by(below, base))) by {
                assert(heeds(
                    run.frames[run.frames.len() - 1],
                    marked_by(run.frames.take(run.frames.len() - 1), base),
                ));
                assert(run.frames.take(run.frames.len() - 1) =~= below);
            }
            assert forall|i: int| 0 <= i < below.len() implies heeds(
                #[trigger] below[i],
                marked_by(below.take(i), base),
            ) by {
                assert(below[i] == run.frames[i]);
                assert(below.take(i) =~= run.frames.take(i));
            }
            match top {
                FrameView::Main(n) => {
                    lemma_main_kept(below, n, t, reply, base);
                    let step = search::next(n, t, reply);
                    lemma_settle_kept(below, FrameView::Main(step.node), step.thread, step.out, base);
                },
                FrameView::Quiet(n) => {
                    crate::qsearch_laws::law_step_is_sound(n, t, reply);
                    let step = qsearch::next(n, t, reply);
                    assert(below.push(FrameView::Quiet(step.node)).drop_last() =~= below);
                    assert(marks(step.thread) =~= marks(t));
                    lemma_settle_kept(below, FrameView::Quiet(step.node), step.thread, step.out, base);
                },
            }
        },
        Pending::Search(params, pos) => {
            let n = search::fresh(params, pos, t.scale);
            let step = search::begin(params, pos, t);
            search_laws::law_begin_is_sound(params, pos, t);
            search_laws::law_entering(n, t);
            lemma_marked_len(run.frames, base);
            assert(run.frames.push(FrameView::Main(step.node)).drop_last() =~= run.frames);
            if !(step.out is Overrun) {
                assert(marks(step.thread) =~= marks(t)) by {
                    assert forall|i: int| 0 <= i < t.stack.len() implies marks(step.thread)[i] == marks(t)[i] by {
                        assert(step.thread.stack[i].singular == t.stack[i].singular);
                    }
                }
                if step.node.inside() {
                    assert(marks(t)[params.ply as int] == t.stack[params.ply as int].singular);
                }
            }
            lemma_settle_kept(run.frames, FrameView::Main(step.node), step.thread, step.out, base);
        },
        Pending::Quiesce(params, pos) => {
            let step = qsearch::begin(params, pos, t);
            assert(run.frames.push(FrameView::Quiet(step.node)).drop_last() =~= run.frames);
            lemma_settle_kept(run.frames, FrameView::Quiet(step.node), step.thread, step.out, base);
        },
        _ => {},
    }
}

/// From its start on, whatever the replies are, a search with all its children keeps the
/// marks: while it runs, they are those that it found and those that its nodes have set on
/// top, and when it has ended, every mark on the stack is as it was.
pub proof fn law_every_mark_is_put_back(params: Params, pos: Position, t: ThreadView, replies: Seq<Reply>)
    requires
        t.wf(),
        pos.wf(),
        params.wf(t.scale),
        course::well_answered(course::start(params, pos), t, replies),
    ensures
        ({
            let end = course::ran(course::start(params, pos), t, replies);
            &&& kept(end.run, end.thread, marks(t))
            &&& end.run.pending is Finished ==> forall|i: int|
                0 <= i < t.stack.len() ==> (#[trigger] end.thread.stack[i]).singular == t.stack[i].singular
        }),
    decreases replies.len(),
{
    let run = course::start(params, pos);
    let end = course::ran(run, t, replies);
    course::law_course_is_sound(run, t, replies);
    if replies.len() > 0 {
        law_every_mark_is_put_back(params, pos, t, replies.drop_last());
        course::law_course_is_sound(run, t, replies.drop_last());
        let before = course::ran(run, t, replies.drop_last());
        law_marks_are_kept(before.run, before.thread, replies.last(), marks(t));
    }
    if end.run.pending is Finished {
        assert forall|i: int| 0 <= i < t.stack.len() implies (#[trigger] end.thread.stack[i]).singular
            == t.stack[i].singular by {
            assert(marks(end.thread)[i] == marks(t)[i]);
        }
    }
}

/// The node on top looks at moves, and was started where this move is marked.
pub open spec fn excludes(run: RunView, base: Seq<Option<Move>>, mv: Move) -> bool {
    &&& run.pending is Answer || run.pending is Return
    &&& run.frames.last() matches FrameView::Main(n) && n.inside() && marked_by(run.frames.drop_last(), base)[
        n.core.params.ply as int] == Some(mv)
}

/// The node on top has neither made the move nor passed, stored or corrected anything, and
/// has not answered before it looked at moves.
pub open spec fn left_out(run: RunView, t: ThreadView, request: Request, then: ThreadView, mv: Move) -> bool {
    let phase = run.frames.last()->Main_0.core.phase;
    &&& !(request matches Request::Ask(Query::MakeMove(made)) && made == mv)
    &&& !(request matches Request::Ask(Query::Store(_)))
    &&& !(request matches Request::Ask(Query::MakeNull))
    &&& search_laws::same_corrections(then.tables, t.tables)
    &&& phase is Probe || phase is Evaluate ==> request is Ask
}

proof fn lemma_left_out(run: RunView, t: ThreadView, reply: Reply, base: Seq<Option<Move>>, mv: Move)
    requires
        t.wf(),
        run.wf(t.scale),
        run.answered_by(t, reply),
        kept(run, t, base),
        excludes(run, base, mv),
    ensures
        left_out(run, t, run::advanced(run, t, reply).request, run::advanced(run, t, reply).thread, mv),
{
    reveal(run::advanced);
    let top = run.frames[run.frames.len() - 1];
    assert(heeds(top, marked_by(run.frames.take(run.frames.len() - 1), base)));
    assert(run.frames.take(run.frames.len() - 1) =~= run.frames.drop_last());
    let reply = match run.pending {
        Pending::Return(score) => Reply::Child(score),
        _ => reply,
    };
    if run.pending is Return {
        assert(top.wf(t.scale) && top.awaits_child());
    }
    if let FrameView::Main(n) = top {
        search_laws::law_singular_search_leaves_its_move_out(n, t, reply);
    }
}

/// In the course of a search, whatever the replies are, a node that was started where a move
/// is marked never makes that move, is not stored, corrects nothing, does not pass, and
/// answers neither from the table nor from its evaluation.
pub proof fn law_marked_move_is_left_out(
    params: Params,
    pos: Position,
    t: ThreadView,
    replies: Seq<Reply>,
    reply: Reply,
    mv: Move,
)
    requires
        t.wf(),
        pos.wf(),
        params.wf(t.scale),
        course::well_answered(course::start(params, pos), t, replies.push(reply)),
        excludes(course::ran(course::start(params, pos), t, replies).run, marks(t), mv),
    ensures
        ({
            let now = course::ran(course::start(params, pos), t, replies);
            let then = course::ran(course::start(params, pos), t, replies.push(reply));
            left_out(now.run, now.thread, then.request, then.thread, mv)
        }),
{
    let run = course::start(params, pos);
    let now = course::ran(run, t, replies);
    assert(replies.push(reply).drop_last() =~= replies);
    law_every_mark_is_put_back(params, pos, t, replies);
    course::law_course_is_sound(run, t, replies);
    lemma_left_out(now.run, now.thread, reply, marks(t), mv);
}

} // verus!
