//! The line of the root in the course of a search.
use vstd::prelude::*;

use crate::board::Position;
use crate::course;
use crate::course_lines;
use crate::limits::MAX_PLY;
use crate::node::{Made, Outcome, Params, Reply};
use crate::qsearch;
use crate::qsearch::QNode;
use crate::qsearch_laws;
use crate::run;
use crate::run::{FrameView, Pending, RunView};
use crate::run_laws;
use crate::search;
use crate::search::NodeView;
use crate::search_laws;
use crate::thread::ThreadView;

verus! {

/// A move was on the board at one time or another.
pub open spec fn moved(boards: Set<Seq<Made>>) -> bool {
    exists|board: Seq<Made>| #[trigger] boards.contains(board) && board.len() > 0
}

/// A root that looks at moves: its line is kept, and if a move was made, it has counted one
/// or is on one.
pub open spec fn main_root(n: NodeView, t: ThreadView, boards: Set<Seq<Made>>, base: int) -> bool {
    &&& n.core.params.kind.root
    &&& n.core.params.ply == base
    &&& search_laws::plain_root(n)
    &&& search_laws::has_line(n, t)
    &&& n.inside() && moved(boards) ==> n.core.moves_seen > 0 || search_laws::on_a_move(n)
    &&& !n.inside() ==> n.core.phase is Quiesce && n.core.moves_seen == 0 && n.core.best_move is None
}

/// The same of a root that the quiescence search looks at.
pub open spec fn quiet_root(q: QNode, t: ThreadView, boards: Set<Seq<Made>>, base: int) -> bool {
    &&& q.params.kind.root
    &&& q.params.ply == base
    &&& qsearch_laws::has_line(q, t)
    &&& q.phase is Entry ==> q.moves_seen == 0
    &&& moved(boards) ==> q.moves_seen > 0 || qsearch_laws::on_a_move(q)
}

/// If a move was made, the root has a line, unless the search is to end.
pub open spec fn has_root_line(t: ThreadView, boards: Set<Seq<Made>>, base: int) -> bool {
    moved(boards) ==> t.abort_now || t.stack[base].pv.len() > 0
}

/// The line of the root is kept by whichever node is at it: the root itself, or the
/// quiescence search that it has handed its position on to.
pub open spec fn held(run: RunView, t: ThreadView, boards: Set<Seq<Made>>, base: int) -> bool {
    run.pending is Stuck || if run.frames.len() == 0 {
        match run.pending {
            Pending::Finished(_) => has_root_line(t, boards, base),
            _ => !moved(boards),
        }
    } else {
        &&& run.frames[0] matches FrameView::Main(n) && main_root(n, t, boards, base)
        &&& run.frames[0]->Main_0.core.phase is Quiesce ==> {
            if run.frames.len() == 1 {
                match run.pending {
                    Pending::Quiesce(params, _) => !moved(boards) && params.kind.root && params.ply == base,
                    Pending::Return(_) => has_root_line(t, boards, base),
                    _ => false,
                }
            } else {
                run.frames[1] matches FrameView::Quiet(q) && quiet_root(q, t, boards, base)
            }
        }
    }
}

proof fn lemma_moved(boards: Set<Seq<Made>>, board: Seq<Made>)
    ensures
        moved(boards.insert(board)) <==> moved(boards) || board.len() > 0,
{
    let wider = boards.insert(board);
    assert(wider.contains(board));
    if moved(boards) {
        let b = choose|b: Seq<Made>| #[trigger] boards.contains(b) && b.len() > 0;
        assert(wider.contains(b));
    }
    if moved(wider) && board.len() == 0 {
        let b = choose|b: Seq<Made>| #[trigger] wider.contains(b) && b.len() > 0;
        assert(boards.contains(b));
    }
}

/// A step of a node further down the tree leaves the root and its line alone.
proof fn lemma_elsewhere(
    below: Seq<FrameView>,
    after: FrameView,
    t: ThreadView,
    then: ThreadView,
    out: Outcome,
    boards: Set<Seq<Made>>,
    wider: Set<Seq<Made>>,
    base: int,
)
    requires
        below.len() > 0,
        below[0].awaits_child(),
        below[0] matches FrameView::Main(n) && main_root(n, t, boards, base),
        below[0]->Main_0.core.phase is Quiesce ==> below.len() > 1 && below[1].awaits_child() && (
        below[1] matches FrameView::Quiet(q) && quiet_root(q, t, boards, base)),
        then.stack[base] == t.stack[base],
    ensures
        held(run::settle(below.push(after), then, out).run, then, wider, base),
{
    assert(below.push(after).drop_last() =~= below);
    let s = run::settle(below.push(after), then, out);
    assert(s.run.frames[0] == below[0]);
    if below.len() > 1 {
        assert(s.run.frames[1] == below[1]);
    }
}

/// A node that is not the first one, nor the quiescence node right above it, is at another
/// ply than the root.
proof fn lemma_further_down(below: Seq<FrameView>, t: ThreadView, boards: Set<Seq<Made>>, base: int)
    requires
        below.len() > 0,
        below[0].awaits_child(),
        below[0] matches FrameView::Main(n) && main_root(n, t, boards, base),
        below[0]->Main_0.core.phase is Quiesce ==> below.len() > 1 && below[1].awaits_child() && below[1] is Quiet,
    ensures
        run::path(below).len() > 0,
{
    let i: int = if below[0]->Main_0.core.phase is Quiesce {
        1
    } else {
        0
    };
    assert(below.take(i + 1) =~= below.take(i).push(below[i]));
    run_laws::lemma_path_push(below.take(i), below[i]);
    course_lines::lemma_path_grows(below, i + 1, below.len() as int);
    assert(below.take(below.len() as int) =~= below);
}

/// The root takes a reply.
proof fn lemma_main_root(n: NodeView, t: ThreadView, reply: Reply, boards: Set<Seq<Made>>, base: int)
    requires
        t.wf(),
        n.wf(t.scale),
        n.answered_by(t.scale, reply),
        main_root(n, t, boards, base),
        search_laws::scouts_later_moves(n),
        n.core.phase is Quiesce ==> has_root_line(t, boards, base),
    ensures
        ({
            let step = search::next(n, t, reply);
            let s = run::settle(Seq::empty().push(FrameView::Main(step.node)), step.thread, step.out);
            held(s.run, step.thread, boards.insert(run::path(s.run.frames)), base)
        }),
{
    let step = search::next(n, t, reply);
    let none = Seq::<FrameView>::empty();
    let top = FrameView::Main(step.node);
    let s = run::settle(none.push(top), step.thread, step.out);
    run_laws::lemma_path_push(none, top);
    assert(run::path(none) =~= Seq::<Made>::empty());
    lemma_moved(boards, run::path(s.run.frames));
    search_laws::law_step_is_sound(n, t, reply);
    search_laws::law_lines_are_traced(n, t, reply);
    if n.inside() {
        search_laws::law_moves_are_counted(n, t, reply);
        search_laws::law_line_starts_with_the_best_move(n, t, reply);
        if !(step.out is Done || step.out is Overrun) {
            assert(s.run.frames =~= seq![top]);
            assert(step.node.inside());
        }
    } else {
        reveal(search::next);
    }
}

/// The quiescence node of the root takes a reply.
proof fn lemma_quiet_root(
    bottom: NodeView,
    q: QNode,
    t: ThreadView,
    reply: Reply,
    boards: Set<Seq<Made>>,
    base: int,
)
    requires
        t.wf(),
        q.wf(t.scale),
        q.answered_by(t, reply),
        main_root(bottom, t, boards, base),
        bottom.core.phase is Quiesce,
        quiet_root(q, t, boards, base),
    ensures
        ({
            let step = qsearch::next(q, t, reply);
            let below = seq![FrameView::Main(bottom)];
            let s = run::settle(below.push(FrameView::Quiet(step.node)), step.thread, step.out);
            held(s.run, step.thread, boards.insert(run::path(s.run.frames)), base)
        }),
{
    let step = qsearch::next(q, t, reply);
    let none = Seq::<FrameView>::empty();
    let below = seq![FrameView::Main(bottom)];
    let top = FrameView::Quiet(step.node);
    let s = run::settle(below.push(top), step.thread, step.out);
    assert(below =~= none.push(FrameView::Main(bottom)));
    run_laws::lemma_path_push(none, FrameView::Main(bottom));
    assert(run::path(none) =~= Seq::<Made>::empty());
    run_laws::lemma_path_push(below, top);
    assert(below.push(top).drop_last() =~= below);
    lemma_moved(boards, run::path(s.run.frames));
    qsearch_laws::law_step_is_sound(q, t, reply);
    qsearch_laws::law_moves_are_counted(q, t, reply);
    assert(s.run.frames.len() > 0 && s.run.frames[0] == FrameView::Main(bottom));
    if !(step.out is Done) {
        assert(s.run.frames[1] == top);
    }
}

/// The root is started.
proof fn lemma_root_starts(params: Params, pos: Position, t: ThreadView, boards: Set<Seq<Made>>)
    requires
        t.wf(),
        pos.wf(),
        params.wf(t.scale),
        params.kind.root,
        !moved(boards),
    ensures
        ({
            let step = search::begin(params, pos, t);
            let s = run::settle(Seq::empty().push(FrameView::Main(step.node)), step.thread, step.out);
            held(s.run, step.thread, boards.insert(run::path(s.run.frames)), params.ply as int)
        }),
{
    let n = search::fresh(params, pos, t.scale);
    let step = search::begin(params, pos, t);
    let none = Seq::<FrameView>::empty();
    let top = FrameView::Main(step.node);
    let s = run::settle(none.push(top), step.thread, step.out);
    run_laws::lemma_path_push(none, top);
    assert(run::path(none) =~= Seq::<Made>::empty());
    search_laws::law_entering(n, t);
    assert(step.node.core.moves_seen == 0 && step.node.core.best_move is None && step.node.core.params == params
        && (step.out is Ask ==> step.node.inside()) && (step.out matches Outcome::Quiesce(p, _) ==> p.ply
        == params.ply)) by {
        reveal(search::enter);
    }
    if !(step.out is Done || step.out is Overrun) {
        assert(s.run.frames =~= seq![top]);
    }
    lemma_moved(boards, run::path(s.run.frames));
}

/// The node on top takes a reply.
proof fn lemma_held_fed(
    frames: Seq<FrameView>,
    pending: Pending,
    t: ThreadView,
    reply: Reply,
    boards: Set<Seq<Made>>,
    base: int,
)
    requires
        t.wf(),
        frames.len() > 0,
        run::all_wait(frames.drop_last(), t.scale),
        frames.last().wf(t.scale),
        frames.last().answered_by(t, reply),
        pending is Answer && !frames.last().awaits_child() || pending is Return && frames.last().awaits_child(),
        course_lines::stacked(frames, t, boards, base),
        held(RunView { frames, pending }, t, boards, base),
    ensures
        ({
            let s = run::feed(frames, t, reply);
            held(s.run, s.thread, boards.insert(run::path(s.run.frames)), base)
        }),
{
    let below = frames.drop_last();
    let top = frames.last();
    let s = run::feed(frames, t, reply);
    let wider = boards.insert(run::path(s.run.frames));
    course_lines::lemma_stacked_below(frames, t, boards, base);
    if frames.len() == 1 {
        assert(below =~= Seq::<FrameView>::empty());
        assert(top == frames[0]);
        if let FrameView::Main(n) = top {
            lemma_main_root(n, t, reply, boards, base);
        }
    } else {
        assert(below[0] == frames[0]);
        assert(below[0].wf(t.scale) && below[0].awaits_child());
        let bottom = frames[0]->Main_0;
        if bottom.core.phase is Quiesce && frames.len() == 2 {
            assert(top == frames[1]);
            assert(below =~= seq![FrameView::Main(bottom)]);
            if let FrameView::Quiet(q) = top {
                lemma_quiet_root(bottom, q, t, reply, boards, base);
            }
        } else {
            if bottom.core.phase is Quiesce {
                assert(below[1] == frames[1]);
                assert(below[1].awaits_child());
            }
            lemma_further_down(below, t, boards, base);
            match top {
                FrameView::Main(n) => {
                    search_laws::law_step_is_sound(n, t, reply);
                    let step = search::next(n, t, reply);
                    assert(step.thread.stack[base] == t.stack[base]);
                    lemma_elsewhere(
                        below,
                        FrameView::Main(step.node),
                        t,
                        step.thread,
                        step.out,
                        boards,
                        wider,
                        base,
                    );
                },
                FrameView::Quiet(n) => {
                    qsearch_laws::law_step_is_sound(n, t, reply);
                    let step = qsearch::next(n, t, reply);
                    assert(step.thread.stack[base] == t.stack[base]);
                    lemma_elsewhere(
                        below,
                        FrameView::Quiet(step.node),
                        t,
                        step.thread,
                        step.out,
                        boards,
                        wider,
                        base,
                    );
                },
            }
        }
    }
}

/// Another node than the root is started.
proof fn lemma_held_started(run: RunView, t: ThreadView, boards: Set<Seq<Made>>, base: int)
    requires
        t.wf(),
        run.wf(t.scale),
        run.frames.len() > 0,
        run.pending is Search || run.pending is Quiesce,
        0 <= base < t.stack.len(),
        course_lines::trail(run, t, boards, base),
        held(run, t, boards, base),
    ensures
        ({
            let s = run::advanced(run, t, Reply::Done);
            held(s.run, s.thread, boards.insert(run::path(s.run.frames)), base)
        }),
{
    reveal(run::advanced);
    let s = run::advanced(run, t, Reply::Done);
    let wider = boards.insert(run::path(s.run.frames));
    let frames = run.frames;
    let bottom = frames[0]->Main_0;
    assert(frames[0].awaits_child());
    if bottom.core.phase is Quiesce && frames.len() == 1 {
        if let Pending::Quiesce(params, pos) = run.pending {
            let step = qsearch::begin(params, pos, t);
            let top = FrameView::Quiet(step.node);
            let none = Seq::<FrameView>::empty();
            assert(frames =~= none.push(frames[0]));
            run_laws::lemma_path_push(none, frames[0]);
            assert(run::path(none) =~= Seq::<Made>::empty());
            run_laws::lemma_path_push(frames, top);
            assert(frames.push(top).drop_last() =~= frames);
            assert(frames.push(top)[0] == frames[0] && frames.push(top)[1] == top);
            lemma_moved(boards, run::path(s.run.frames));
        }
    } else {
        if bottom.core.phase is Quiesce {
            assert(frames[1].awaits_child());
        }
        lemma_further_down(frames, t, boards, base);
        match run.pending {
            Pending::Search(params, pos) => {
                search_laws::law_begin_is_sound(params, pos, t);
                let step = search::begin(params, pos, t);
                assert(step.thread.stack[base] == t.stack[base]);
                lemma_elsewhere(
                    frames,
                    FrameView::Main(step.node),
                    t,
                    step.thread,
                    step.out,
                    boards,
                    wider,
                    base,
                );
            },
            Pending::Quiesce(params, pos) => {
                qsearch_laws::law_begin_is_sound(params, pos, t);
                let step = qsearch::begin(params, pos, t);
                assert(step.thread.stack[base] == t.stack[base]);
                lemma_elsewhere(
                    frames,
                    FrameView::Quiet(step.node),
                    t,
                    step.thread,
                    step.out,
                    boards,
                    wider,
                    base,
                );
            },
            _ => {},
        }
    }
}

/// Whatever the reply is, a run that starts at its root holds on to the line of the root.
pub proof fn law_root_line_is_held(run: RunView, t: ThreadView, reply: Reply, boards: Set<Seq<Made>>, base: int)
    requires
        t.wf(),
        run.wf(t.scale),
        run.answered_by(t, reply),
        0 <= base < t.stack.len(),
        course_lines::trail(run, t, boards, base),
        held(run, t, boards, base),
    ensures
        ({
            let s = run::advanced(run, t, reply);
            held(s.run, s.thread, boards.insert(run::path(s.run.frames)), base)
        }),
{
    match run.pending {
        Pending::Answer => {
            assert(run::advanced(run, t, reply) == run::feed(run.frames, t, reply)) by {
                reveal(run::advanced);
            }
            lemma_held_fed(run.frames, run.pending, t, reply, boards, base);
        },
        Pending::Return(score) => {
            assert(run::advanced(run, t, reply) == run::feed(run.frames, t, Reply::Child(score))) by {
                reveal(run::advanced);
            }
            let below = run.frames.drop_last();
            let last = run.frames[run.frames.len() - 1];
            assert(last.wf(t.scale) && last.awaits_child());
            assert forall|i: int| 0 <= i < below.len() implies (#[trigger] below[i]).wf(t.scale)
                && below[i].awaits_child() by {
                assert(below[i] == run.frames[i]);
            }
            lemma_held_fed(run.frames, run.pending, t, Reply::Child(score), boards, base);
        },
        Pending::Search(params, pos) => {
            assert(run::advanced(run, t, reply) == run::advanced(run, t, Reply::Done)) by {
                reveal(run::advanced);
            }
            if run.frames.len() == 0 {
                assert(run.frames =~= Seq::<FrameView>::empty());
                assert(run::path(run.frames) =~= Seq::<Made>::empty());
                reveal(run::advanced);
                lemma_root_starts(params, pos, t, boards);
            } else {
                lemma_held_started(run, t, boards, base);
            }
        },
        Pending::Quiesce(params, pos) => {
            assert(run::advanced(run, t, reply) == run::advanced(run, t, Reply::Done)) by {
                reveal(run::advanced);
            }
            lemma_held_started(run, t, boards, base);
        },
        Pending::Finished(_) => {
            reveal(run::advanced);
            assert(run::path(run.frames).len() == 0);
            lemma_moved(boards, run::path(run.frames));
        },
        Pending::Stuck => {
            reveal(run::advanced);
        },
    }
}

/// A search from its root that has made a move and was not cut short ends with a line, at
/// any depth and whatever the replies are.
pub proof fn law_root_has_a_line(params: Params, pos: Position, t: ThreadView, replies: Seq<Reply>)
    requires
        t.wf(),
        pos.wf(),
        params.wf(t.scale),
        params.kind.root,
        params.ply <= MAX_PLY,
        course::well_answered(course::start(params, pos), t, replies),
    ensures
        ({
            let run = course::start(params, pos);
            let end = course::ran(run, t, replies);
            let boards = course_lines::boards(run, t, replies);
            &&& held(end.run, end.thread, boards, params.ply as int)
            &&& end.run.pending is Finished && !end.thread.abort_now && moved(boards)
                ==> end.thread.stack[params.ply as int].pv.len() > 0
        }),
    decreases replies.len(),
{
    let run = course::start(params, pos);
    course::law_course_is_sound(run, t, replies);
    if replies.len() == 0 {
        let none = Seq::<Made>::empty();
        assert(run::path(run.frames) =~= none);
        lemma_moved(Set::empty(), none);
        assert(!moved(Set::empty()));
    } else {
        let rest = replies.drop_last();
        law_root_has_a_line(params, pos, t, rest);
        course_lines::law_root_line_was_played(params, pos, t, rest);
        course::law_course_is_sound(run, t, rest);
        let before = course::ran(run, t, rest);
        law_root_line_is_held(
            before.run,
            before.thread,
            replies.last(),
            course_lines::boards(run, t, rest),
            params.ply as int,
        );
    }
}

} // verus!
