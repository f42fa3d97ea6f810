//! What holds of a run from its start on, whatever the replies are.
use vstd::prelude::*;

use crate::board::Position;
use crate::limits::MAX_PLY;
use crate::node::{Made, Outcome, Params, Query, Reply};
use crate::qsearch;
use crate::run;
use crate::run::{FrameView, Pending, Request, RunStep, RunView};
use crate::run_laws;
use crate::score::Score;
use crate::search;
use crate::search::Phase;
use crate::thread::ThreadView;

verus! {

/// A run that is about to search a position.
pub open spec fn start(params: Params, pos: Position) -> RunView {
    RunView { frames: Seq::empty(), pending: Pending::Search(params, pos) }
}

/// A run that is about to search a position for quiescence.
pub open spec fn quiet_start(params: Params, pos: Position) -> RunView {
    RunView { frames: Seq::empty(), pending: Pending::Quiesce(params, pos) }
}

/// Where a run has come after these replies, and what it needed last.
pub open spec fn ran(run: RunView, t: ThreadView, replies: Seq<Reply>) -> RunStep
    decreases replies.len(),
{
    if replies.len() == 0 {
        RunStep { run, thread: t, request: Request::Turn }
    } else {
        let before = ran(run, t, replies.drop_last());
        run::advanced(before.run, before.thread, replies.last())
    }
}

/// Each reply is one that the run can be advanced with.
pub open spec fn well_answered(run: RunView, t: ThreadView, replies: Seq<Reply>) -> bool
    decreases replies.len(),
{
    replies.len() == 0 || {
        let before = ran(run, t, replies.drop_last());
        well_answered(run, t, replies.drop_last()) && before.run.answered_by(before.thread, replies.last())
    }
}

/// A sound run stays sound.
pub proof fn law_course_is_sound(run: RunView, t: ThreadView, replies: Seq<Reply>)
    requires
        t.wf(),
        run.wf(t.scale),
        well_answered(run, t, replies),
    ensures
        ran(run, t, replies).run.wf(t.scale),
        ran(run, t, replies).thread.wf(),
        ran(run, t, replies).thread.scale == t.scale,
    decreases replies.len(),
{
    if replies.len() > 0 {
        law_course_is_sound(run, t, replies.drop_last());
        let before = ran(run, t, replies.drop_last());
        run::law_run_is_sound(before.run, before.thread, replies.last());
    }
}

/// Replies can be given in two parts.
pub proof fn lemma_two_parts(run: RunView, t: ThreadView, first: Seq<Reply>, rest: Seq<Reply>)
    ensures
        ({
            let middle = ran(run, t, first);
            let end = ran(middle.run, middle.thread, rest);
            &&& ran(run, t, first + rest).run == end.run
            &&& ran(run, t, first + rest).thread == end.thread
            &&& rest.len() > 0 ==> ran(run, t, first + rest).request == end.request
            &&& well_answered(run, t, first + rest) <==> well_answered(run, t, first) && well_answered(
                middle.run,
                middle.thread,
                rest,
            )
        }),
    decreases rest.len(),
{
    if rest.len() == 0 {
        assert(first + rest =~= first);
    } else {
        lemma_two_parts(run, t, first, rest.drop_last());
        assert((first + rest).drop_last() =~= first + rest.drop_last());
    }
}

proof fn lemma_one(run: RunView, t: ThreadView, reply: Reply)
    ensures
        ran(run, t, seq![reply]) == run::advanced(run, t, reply),
        well_answered(run, t, seq![reply]) == run.answered_by(t, reply),
{
    let none = Seq::<Reply>::empty();
    assert(seq![reply].drop_last() =~= none);
    assert(ran(run, t, none).run == run && ran(run, t, none).thread == t);
    assert(well_answered(run, t, none));
}

/// A run that cannot go on says so, and stays where it is.
pub proof fn law_stuck_run_stays_stuck(run: RunView, t: ThreadView, reply: Reply)
    ensures
        run::advanced(run, t, reply).request is Overrun <==> run::advanced(run, t, reply).run.pending is Stuck,
        run.pending is Stuck ==> run::advanced(run, t, reply).run == run && run::advanced(run, t, reply).thread == t,
{
    reveal(run::advanced);
}

/// The moves on the board after a request was carried out.
pub open spec fn carried(board: Seq<Made>, request: Request) -> Seq<Made> {
    match request {
        Request::Ask(Query::MakeMove(mv)) => board.push(Made::Move(mv)),
        Request::Ask(Query::MakeNull) => board.push(Made::Null),
        Request::Ask(Query::UnmakeMove) => board.drop_last(),
        Request::Ask(Query::UnmakeNull) => board.drop_last(),
        _ => board,
    }
}

/// The moves that an engine which carries out every request has on its board.
pub open spec fn board_after(run: RunView, t: ThreadView, replies: Seq<Reply>) -> Seq<Made>
    decreases replies.len(),
{
    if replies.len() == 0 {
        Seq::empty()
    } else {
        carried(board_after(run, t, replies.drop_last()), ran(run, t, replies).request)
    }
}

/// Whatever the replies are, a run that has ended has had every move and every pass taken
/// back, and until then the board holds what the nodes on the stack have made.
pub proof fn law_every_move_is_taken_back(run: RunView, t: ThreadView, replies: Seq<Reply>)
    requires
        t.wf(),
        run.wf(t.scale),
        run.frames.len() == 0,
        well_answered(run, t, replies),
    ensures
        !(ran(run, t, replies).run.pending is Stuck) ==> board_after(run, t, replies) == run::path(
            ran(run, t, replies).run.frames,
        ),
        ran(run, t, replies).request is Finished ==> board_after(run, t, replies) == Seq::<Made>::empty(),
    decreases replies.len(),
{
    if replies.len() > 0 {
        let before = ran(run, t, replies.drop_last());
        law_every_move_is_taken_back(run, t, replies.drop_last());
        law_course_is_sound(run, t, replies.drop_last());
        run_laws::law_board_is_restored(before.run, before.thread, replies.last(), 0);
        law_stuck_run_stays_stuck(before.run, before.thread, replies.last());
        if ran(run, t, replies).request is Finished {
            assert(run::path(before.run.frames) =~= Seq::<Made>::empty());
            assert(run::path(ran(run, t, replies).run.frames) =~= Seq::<Made>::empty());
        }
    }
}

/// A run that is to end winds down, and hands on nothing but zero.
pub open spec fn ends_with_zero(run: RunView, t: ThreadView) -> bool {
    t.abort_now && !(run.pending is Stuck) ==> {
        &&& run_laws::winding_down(run)
        &&& run.pending matches Pending::Return(score) ==> score == Score(0)
        &&& run.pending matches Pending::Finished(score) ==> score == Score(0)
    }
}

proof fn lemma_settle_zero(below: Seq<FrameView>, top: FrameView, t: ThreadView, out: Outcome)
    requires
        out matches Outcome::Done(score) ==> score == Score(0),
    ensures
        ({
            let s = run::settle(below.push(top), t, out);
            &&& s.run.pending matches Pending::Return(score) ==> score == Score(0)
            &&& s.run.pending matches Pending::Finished(score) ==> score == Score(0)
            &&& out is Done ==> s.run.frames =~= below
        }),
{
    assert(below.push(top).drop_last() =~= below);
}

proof fn lemma_ends_with_zero(run: RunView, t: ThreadView, reply: Reply)
    requires
        t.wf(),
        run.wf(t.scale),
        run.answered_by(t, reply),
        ends_with_zero(run, t),
    ensures
        ends_with_zero(run::advanced(run, t, reply).run, run::advanced(run, t, reply).thread),
{
    reveal(run::advanced);
    let s = run::advanced(run, t, reply);
    if t.abort_now && !(run.pending is Stuck) {
        run_laws::law_aborted_run_learns_nothing(run, t, reply);
    }
    if s.thread.abort_now && !(run.pending is Stuck) {
        let reply = match run.pending {
            Pending::Return(score) => Reply::Child(score),
            _ => reply,
        };
        match run.pending {
            Pending::Answer | Pending::Return(_) => {
                let below = run.frames.drop_last();
                let top = run.frames.last();
                assert(top.wf(t.scale) && top.answered_by(t, reply)) by {
                    if run.pending is Return {
                        let last = run.frames[run.frames.len() - 1];
                        assert(last.wf(t.scale) && last.awaits_child());
                    }
                }
                assert forall|i: int| 0 <= i < below.len() implies run_laws::under_way(#[trigger] below[i]) by {
                    if run.pending is Return {
                        assert(run.frames[i].awaits_child());
                    }
                    assert(below[i].awaits_child());
                }
                if t.abort_now {
                    assert(run_laws::under_way(run.frames[run.frames.len() - 1]));
                }
                match top {
                    FrameView::Main(n) => {
                        crate::search_laws::law_step_is_sound(n, t, reply);
                        if t.abort_now {
                            crate::search_laws::law_abort_winds_down(n, t, reply);
                        }
                        let step = search::next(n, t, reply);
                        lemma_settle_zero(below, FrameView::Main(step.node), step.thread, step.out);
                    },
                    FrameView::Quiet(n) => {
                        crate::qsearch_laws::law_step_is_sound(n, t, reply);
                        if t.abort_now {
                            crate::qsearch_laws::law_abort_winds_down(n, t, reply);
                        }
                        let step = qsearch::next(n, t, reply);
                        lemma_settle_zero(below, FrameView::Quiet(step.node), step.thread, step.out);
                    },
                }
            },
            Pending::Search(params, pos) => {
                crate::search_laws::law_begin_is_sound(params, pos, t);
                let step = search::begin(params, pos, t);
                lemma_settle_zero(run.frames, FrameView::Main(step.node), step.thread, step.out);
                assert forall|i: int| 0 <= i < run.frames.len() implies run_laws::under_way(
                    #[trigger] run.frames[i],
                ) by {
                    assert(run.frames[i].awaits_child());
                }
            },
            Pending::Quiesce(params, pos) => {
                crate::qsearch_laws::law_begin_is_sound(params, pos, t);
                let step = qsearch::begin(params, pos, t);
                lemma_settle_zero(run.frames, FrameView::Quiet(step.node), step.thread, step.out);
                assert forall|i: int| 0 <= i < run.frames.len() implies run_laws::under_way(
                    #[trigger] run.frames[i],
                ) by {
                    assert(run.frames[i].awaits_child());
                }
            },
            _ => {},
        }
    }
}

proof fn lemma_course_ends_with_zero(run: RunView, t: ThreadView, replies: Seq<Reply>)
    requires
        t.wf(),
        run.wf(t.scale),
        well_answered(run, t, replies),
        ends_with_zero(run, t),
    ensures
        ends_with_zero(ran(run, t, replies).run, ran(run, t, replies).thread),
    decreases replies.len(),
{
    if replies.len() > 0 {
        lemma_course_ends_with_zero(run, t, replies.drop_last());
        law_course_is_sound(run, t, replies.drop_last());
        let before = ran(run, t, replies.drop_last());
        lemma_ends_with_zero(before.run, before.thread, replies.last());
    }
}

/// A run that is cut short ends with a score of zero, whichever of its nodes was told that
/// the time is up.
pub proof fn law_aborted_run_scores_zero(params: Params, pos: Position, t: ThreadView, replies: Seq<Reply>)
    requires
        t.wf(),
        pos.wf(),
        params.wf(t.scale),
        !t.abort_now || !params.kind.root,
        well_answered(start(params, pos), t, replies),
        ran(start(params, pos), t, replies).thread.abort_now,
    ensures
        ran(start(params, pos), t, replies).run.pending matches Pending::Finished(score) ==> score == Score(0),
{
    lemma_course_ends_with_zero(start(params, pos), t, replies);
}

/// Once a node of a run was told that the time is up, the run learns nothing more, counts no
/// node and has nothing more stored, whatever the replies are.
pub proof fn law_nothing_is_learned_after_an_abort(
    params: Params,
    pos: Position,
    t: ThreadView,
    replies: Seq<Reply>,
    later: Seq<Reply>,
)
    requires
        t.wf(),
        pos.wf(),
        params.wf(t.scale),
        !t.abort_now || !params.kind.root,
        well_answered(start(params, pos), t, replies + later),
        ran(start(params, pos), t, replies).thread.abort_now,
    ensures
        ({
            let told = ran(start(params, pos), t, replies);
            let end = ran(start(params, pos), t, replies + later);
            &&& end.thread.abort_now
            &&& end.thread.tables == told.thread.tables
            &&& end.thread.nodes == told.thread.nodes
            &&& later.len() > 0 ==> !(end.request matches Request::Ask(Query::Store(_)))
        }),
    decreases later.len(),
{
    let run = start(params, pos);
    if later.len() == 0 {
        assert(replies + later =~= replies);
    } else {
        let rest = later.drop_last();
        assert((replies + later).drop_last() =~= replies + rest);
        law_nothing_is_learned_after_an_abort(params, pos, t, replies, rest);
        lemma_course_ends_with_zero(run, t, replies + rest);
        law_course_is_sound(run, t, replies + rest);
        let before = ran(run, t, replies + rest);
        law_stuck_run_stays_stuck(before.run, before.thread, later.last());
        if !(before.run.pending is Stuck) {
            run_laws::law_aborted_run_learns_nothing(before.run, before.thread, later.last());
        }
    }
}

/// Thread `a` is what thread `b` has become without learning anything: on the stack only
/// lines have changed, no ply that was seen is forgotten, and apart from that only the count
/// of nodes and the mark that the search is to end have.
pub open spec fn same_knowledge(a: ThreadView, b: ThreadView) -> bool {
    &&& a == (ThreadView {
        abort_now: a.abort_now,
        nodes: a.nodes,
        sel_depth: a.sel_depth,
        stack: a.stack,
        ..b
    })
    &&& a.sel_depth >= b.sel_depth
    &&& b.abort_now ==> a.abort_now
    &&& a.stack.len() == b.stack.len()
    &&& forall|i: int|
        0 <= i < a.stack.len() ==> (#[trigger] a.stack[i]).singular == b.stack[i].singular && a.stack[i].static_eval
            == b.stack[i].static_eval
}

/// Only quiescence nodes are on the stack, and only such a node is about to be started.
pub open spec fn all_quiet(run: RunView) -> bool {
    &&& forall|i: int| 0 <= i < run.frames.len() ==> #[trigger] run.frames[i] is Quiet
    &&& !(run.pending is Search)
}

proof fn lemma_quiet_step(run: RunView, t: ThreadView, reply: Reply)
    requires
        t.wf(),
        run.wf(t.scale),
        run.answered_by(t, reply),
        all_quiet(run),
    ensures
        all_quiet(run::advanced(run, t, reply).run),
        same_knowledge(run::advanced(run, t, reply).thread, t),
        !(run::advanced(run, t, reply).request matches Request::Ask(Query::Store(_))),
{
    reveal(run::advanced);
    let reply = match run.pending {
        Pending::Return(score) => Reply::Child(score),
        _ => reply,
    };
    match run.pending {
        Pending::Answer | Pending::Return(_) => {
            let last = run.frames[run.frames.len() - 1];
            assert(last is Quiet);
            if run.pending is Return {
                assert(last.wf(t.scale) && last.awaits_child());
            }
            if let FrameView::Quiet(n) = last {
                crate::qsearch_laws::law_step_is_sound(n, t, reply);
                let step = qsearch::next(n, t, reply);
                let below = run.frames.drop_last();
                assert(below.push(FrameView::Quiet(step.node)).drop_last() =~= below);
            }
        },
        Pending::Quiesce(params, pos) => {
            crate::qsearch_laws::law_begin_is_sound(params, pos, t);
            let step = qsearch::begin(params, pos, t);
            assert(run.frames.push(FrameView::Quiet(step.node)).drop_last() =~= run.frames);
        },
        _ => {},
    }
}

/// A quiescence search as a whole teaches no table, changes no evaluation and no mark on
/// the stack, and stores nothing. All that it changes in its thread are lines, the count of
/// nodes, the deepest ply seen, which never falls, and the mark that the search is to end.
pub proof fn law_quiescence_run_learns_nothing(
    params: Params,
    pos: Position,
    t: ThreadView,
    replies: Seq<Reply>,
)
    requires
        t.wf(),
        pos.wf(),
        params.wf(t.scale),
        well_answered(quiet_start(params, pos), t, replies),
    ensures
        all_quiet(ran(quiet_start(params, pos), t, replies).run),
        same_knowledge(ran(quiet_start(params, pos), t, replies).thread, t),
        !(ran(quiet_start(params, pos), t, replies).request matches Request::Ask(Query::Store(_))),
    decreases replies.len(),
{
    if replies.len() > 0 {
        law_quiescence_run_learns_nothing(params, pos, t, replies.drop_last());
        law_course_is_sound(quiet_start(params, pos), t, replies.drop_last());
        let before = ran(quiet_start(params, pos), t, replies.drop_last());
        lemma_quiet_step(before.run, before.thread, replies.last());
    }
}

/// Run `a` is run `b` on top of one more node, which hands on what `b` ends with.
pub open spec fn lifted(a: RunView, b: RunView, bottom: FrameView) -> bool {
    match b.pending {
        Pending::Finished(score) => {
            ||| a.frames == seq![bottom] && a.pending == Pending::Return(score)
            ||| a.frames == Seq::<FrameView>::empty() && a.pending == Pending::Finished(score)
        },
        Pending::Stuck => a.pending is Stuck,
        _ => a.frames == seq![bottom] + b.frames && a.pending == b.pending,
    }
}

/// The node waits for the quiescence search of its own position.
pub open spec fn hands_on(frame: FrameView) -> bool {
    frame matches FrameView::Main(n) && n.core.phase is Quiesce
}

proof fn lemma_settle_lifted(below: Seq<FrameView>, top: FrameView, t: ThreadView, out: Outcome, bottom: FrameView)
    ensures
        ({
            let b = run::settle(below.push(top), t, out);
            let a = run::settle((seq![bottom] + below).push(top), t, out);
            &&& lifted(a.run, b.run, bottom)
            &&& a.thread == b.thread
            &&& !(b.run.pending is Finished) ==> a.request == b.request
        }),
{
    let under = seq![bottom] + below;
    assert(under.push(top).drop_last() =~= under);
    assert(below.push(top).drop_last() =~= below);
    assert(under.push(top) =~= seq![bottom] + below.push(top));
    if below.len() == 0 {
        assert(under =~= seq![bottom]);
    }
}

proof fn lemma_lifted_step(a: RunView, b: RunView, t: ThreadView, reply: Reply, bottom: FrameView)
    requires
        t.wf(),
        b.wf(t.scale),
        b.answered_by(t, reply),
        lifted(a, b, bottom),
        hands_on(bottom),
    ensures
        ({
            let a1 = run::advanced(a, t, reply);
            let b1 = run::advanced(b, t, reply);
            &&& a.answered_by(t, reply)
            &&& lifted(a1.run, b1.run, bottom)
            &&& a1.thread == b1.thread
            &&& !(b1.run.pending is Finished) ==> a1.request == b1.request
        }),
{
    reveal(search::next);
    reveal(qsearch::next);
    reveal(run::advanced);
    match b.pending {
        Pending::Answer | Pending::Return(_) => {
            let below = b.frames.drop_last();
            let top = b.frames.last();
            assert(a.frames.last() == top);
            assert(a.frames.drop_last() =~= seq![bottom] + below);
            let reply = match b.pending {
                Pending::Return(score) => Reply::Child(score),
                _ => reply,
            };
            match top {
                FrameView::Main(n) => {
                    let step = search::next(n, t, reply);
                    lemma_settle_lifted(below, FrameView::Main(step.node), step.thread, step.out, bottom);
                },
                FrameView::Quiet(n) => {
                    let step = qsearch::next(n, t, reply);
                    lemma_settle_lifted(below, FrameView::Quiet(step.node), step.thread, step.out, bottom);
                },
            }
        },
        Pending::Search(params, pos) => {
            let step = search::begin(params, pos, t);
            lemma_settle_lifted(b.frames, FrameView::Main(step.node), step.thread, step.out, bottom);
        },
        Pending::Quiesce(params, pos) => {
            let step = qsearch::begin(params, pos, t);
            lemma_settle_lifted(b.frames, FrameView::Quiet(step.node), step.thread, step.out, bottom);
        },
        Pending::Finished(score) => {
            if a.pending is Return {
                assert(a.frames.last() == bottom);
                assert(a.frames.drop_last() =~= Seq::<FrameView>::empty());
            }
        },
        Pending::Stuck => {},
    }
}

proof fn lemma_lifted_course(a: RunView, b: RunView, t: ThreadView, replies: Seq<Reply>, bottom: FrameView)
    requires
        t.wf(),
        b.wf(t.scale),
        well_answered(b, t, replies),
        lifted(a, b, bottom),
        hands_on(bottom),
    ensures
        well_answered(a, t, replies),
        lifted(ran(a, t, replies).run, ran(b, t, replies).run, bottom),
        ran(a, t, replies).thread == ran(b, t, replies).thread,
        !(ran(b, t, replies).run.pending is Finished) ==> ran(a, t, replies).request == ran(b, t, replies).request,
    decreases replies.len(),
{
    if replies.len() > 0 {
        let rest = replies.drop_last();
        lemma_lifted_course(a, b, t, rest, bottom);
        law_course_is_sound(b, t, rest);
        let a1 = ran(a, t, rest);
        let b1 = ran(b, t, rest);
        lemma_lifted_step(a1.run, b1.run, b1.thread, replies.last(), bottom);
    }
}

/// The replies up to the point where a search of depth zero hands its position on: it is
/// started, and anywhere but at the root it hears that the time is not up.
pub open spec fn opening(root: bool, turn: Reply) -> Seq<Reply> {
    if root {
        seq![turn]
    } else {
        seq![turn, Reply::Stop(false)]
    }
}

/// A search of depth zero hands its position on as soon as it is entered.
proof fn lemma_hands_on(params: Params, pos: Position, t: ThreadView)
    requires
        t.wf(),
        params.depth <= 0,
        pos.board.terminal is None,
        params.kind.root || !pos.repetition,
        params.kind.pv ==> params.ply <= MAX_PLY,
    ensures
        ({
            let n = search::fresh(params, pos, t.scale);
            let step = search::enter(n, t);
            &&& step.node == n.at(Phase::Quiesce)
            &&& step.thread == search::visited(t, params)
            &&& step.out == Outcome::Quiesce(search::quiet_params(params), pos)
        }),
{
    reveal(search::enter);
}

/// A search that is not to end asks first, and its root is entered at once.
proof fn lemma_first_turn(params: Params, pos: Position, t: ThreadView, turn: Reply)
    requires
        !t.abort_now,
    ensures
        ({
            let n = search::fresh(params, pos, t.scale);
            let step = search::enter(n, t);
            let none = Seq::<FrameView>::empty();
            &&& params.kind.root ==> run::advanced(start(params, pos), t, turn) == run::settle(
                none.push(FrameView::Main(step.node)),
                step.thread,
                step.out,
            )
            &&& !params.kind.root ==> run::advanced(start(params, pos), t, turn).run == (RunView {
                frames: none.push(FrameView::Main(n)),
                pending: Pending::Answer,
            }) && run::advanced(start(params, pos), t, turn).thread == t
        }),
{
    reveal(run::advanced);
}

/// A node that waits to be entered is entered when it hears that the time is not up.
proof fn lemma_entered(below: Seq<FrameView>, top: FrameView, t: ThreadView)
    requires
        match top {
            FrameView::Main(n) => n.core.phase is Entry,
            FrameView::Quiet(n) => n.phase is Entry,
        },
    ensures
        ({
            let run = RunView { frames: below.push(top), pending: Pending::Answer };
            let after = run::advanced(run, t, Reply::Stop(false));
            &&& run.answered_by(t, Reply::Stop(false))
            &&& match top {
                FrameView::Main(n) => {
                    let step = search::enter(n, t);
                    after == run::settle(below.push(FrameView::Main(step.node)), step.thread, step.out)
                },
                FrameView::Quiet(n) => {
                    let step = qsearch::enter(n, t);
                    after == run::settle(below.push(FrameView::Quiet(step.node)), step.thread, step.out)
                },
            }
        }),
{
    reveal(search::next);
    reveal(qsearch::next);
    reveal(run::advanced);
    assert(below.push(top).drop_last() =~= below);
    assert(below.push(top).last() == top);
}

/// A quiescence search that is not to end asks first.
proof fn lemma_first_quiet_turn(below: Seq<FrameView>, params: Params, pos: Position, t: ThreadView, turn: Reply)
    requires
        !t.abort_now,
    ensures
        ({
            let run = RunView { frames: below, pending: Pending::Quiesce(params, pos) };
            let after = run::advanced(run, t, turn);
            &&& after.run == (RunView {
                frames: below.push(FrameView::Quiet(qsearch::fresh(params, pos, t.scale))),
                pending: Pending::Answer,
            })
            &&& after.thread == t
        }),
{
    reveal(run::advanced);
}

proof fn lemma_opening(params: Params, pos: Position, t: ThreadView, turn: Reply) -> (bottom: FrameView)
    requires
        t.wf(),
        pos.wf(),
        params.wf(t.scale),
        params.depth <= 0,
        pos.board.terminal is None,
        params.kind.root || !pos.repetition,
        !t.abort_now,
        params.kind.pv ==> params.ply <= MAX_PLY,
    ensures
        hands_on(bottom),
        well_answered(start(params, pos), t, opening(params.kind.root, turn)),
        ran(start(params, pos), t, opening(params.kind.root, turn)).run == (RunView {
            frames: seq![bottom],
            pending: Pending::Quiesce(search::quiet_params(params), pos),
        }),
        ran(start(params, pos), t, opening(params.kind.root, turn)).thread == search::visited(t, params),
{
    let run = start(params, pos);
    let n = search::fresh(params, pos, t.scale);
    let bottom = FrameView::Main(n.at(Phase::Quiesce));
    let none = Seq::<FrameView>::empty();
    lemma_hands_on(params, pos, t);
    lemma_first_turn(params, pos, t, turn);
    lemma_one(run, t, turn);
    assert(none.push(bottom) =~= seq![bottom]);
    if !params.kind.root {
        let first = run::advanced(run, t, turn);
        lemma_entered(none, FrameView::Main(n), t);
        lemma_two_parts(run, t, seq![turn], seq![Reply::Stop(false)]);
        lemma_one(first.run, first.thread, Reply::Stop(false));
        assert(seq![turn] + seq![Reply::Stop(false)] =~= opening(false, turn));
    }
    bottom
}

proof fn lemma_visited_twice(t: ThreadView, params: Params)
    requires
        t.wf(),
        params.kind.pv ==> params.ply <= MAX_PLY,
    ensures
        search::visited(search::visited(t, params), params) == search::visited(t, params),
{
    let once = search::visited(t, params);
    let twice = search::visited(once, params);
    assert(twice.stack =~= once.stack);
    assert(twice =~= once);
}

/// A search that has handed its position on and the quiescence search of that position are
/// entered alike.
proof fn lemma_both_entered(params: Params, pos: Position, t: ThreadView, turn: Reply, bottom: FrameView)
    requires
        t.wf(),
        !t.abort_now,
        params.kind.pv ==> params.ply <= MAX_PLY,
        hands_on(bottom),
    ensures
        ({
            let q = search::quiet_params(params);
            let entry = seq![turn, Reply::Stop(false)];
            let over = RunView { frames: seq![bottom], pending: Pending::Quiesce(q, pos) };
            let a = ran(over, search::visited(t, params), entry);
            let b = ran(quiet_start(q, pos), t, entry);
            &&& well_answered(over, search::visited(t, params), entry)
            &&& lifted(a.run, b.run, bottom)
            &&& a.thread == b.thread
            &&& !(b.run.pending is Finished) ==> a.request == b.request
        }),
{
    let q = search::quiet_params(params);
    let entry = seq![turn, Reply::Stop(false)];
    let none = Seq::<FrameView>::empty();
    let t1 = search::visited(t, params);
    let a0 = RunView { frames: seq![bottom], pending: Pending::Quiesce(q, pos) };
    let b0 = quiet_start(q, pos);
    let n = qsearch::fresh(q, pos, t.scale);
    assert(seq![turn] + seq![Reply::Stop(false)] =~= entry);
    lemma_two_parts(b0, t, seq![turn], seq![Reply::Stop(false)]);
    lemma_two_parts(a0, t1, seq![turn], seq![Reply::Stop(false)]);
    lemma_one(b0, t, turn);
    lemma_one(a0, t1, turn);
    lemma_first_quiet_turn(none, q, pos, t, turn);
    lemma_first_quiet_turn(seq![bottom], q, pos, t1, turn);
    let b1 = run::advanced(b0, t, turn);
    let a1 = run::advanced(a0, t1, turn);
    lemma_one(b1.run, b1.thread, Reply::Stop(false));
    lemma_one(a1.run, a1.thread, Reply::Stop(false));
    lemma_entered(none, FrameView::Quiet(n), t);
    lemma_entered(seq![bottom], FrameView::Quiet(n), t1);
    lemma_visited_twice(t, params);
    assert(qsearch::enter(n, t1) == qsearch::enter(n, t)) by {
        reveal(qsearch::enter);
    }
    let step = qsearch::enter(n, t);
    assert(seq![bottom] + none =~= seq![bottom]);
    lemma_settle_lifted(none, FrameView::Quiet(step.node), step.thread, step.out, bottom);
}

proof fn lemma_lifted_end(a: RunView, b: RunView, t: ThreadView, turn: Reply, bottom: FrameView)
    requires
        lifted(a, b, bottom),
        hands_on(bottom),
        b.pending is Finished,
    ensures
        run::advanced(a, t, turn).request == Request::Finished(b.pending->Finished_0),
        run::advanced(a, t, turn).run.pending == b.pending,
        run::advanced(a, t, turn).thread == t,
{
    reveal(search::next);
    reveal(qsearch::next);
    reveal(run::advanced);
    if a.pending is Return {
        assert(a.frames.last() == bottom);
        assert(a.frames.drop_last() =~= Seq::<FrameView>::empty());
    }
}

/// At depth zero and below, a search is the quiescence search of its position: from the
/// point where both have been entered on, they need the same things, leave the same thread
/// behind, and end with the same score. Depth and cut mark do not matter. A search that is
/// to end from the start is left out: its root forgets its line first.
pub proof fn law_depth_zero_is_quiescence(
    params: Params,
    pos: Position,
    t: ThreadView,
    turn: Reply,
    replies: Seq<Reply>,
)
    requires
        t.wf(),
        pos.wf(),
        params.wf(t.scale),
        params.depth <= 0,
        pos.board.terminal is None,
        params.kind.root || !pos.repetition,
        !t.abort_now,
        params.kind.pv ==> params.ply <= MAX_PLY,
        well_answered(
            quiet_start(search::quiet_params(params), pos),
            t,
            seq![turn, Reply::Stop(false)] + replies,
        ),
    ensures
        ({
            let entry = seq![turn, Reply::Stop(false)];
            let all = opening(params.kind.root, turn) + (entry + replies);
            let a = ran(start(params, pos), t, all);
            let b = ran(quiet_start(search::quiet_params(params), pos), t, entry + replies);
            &&& well_answered(start(params, pos), t, all)
            &&& a.thread == b.thread
            &&& !(b.run.pending is Finished) ==> a.request == b.request
            &&& b.run.pending matches Pending::Finished(score) ==> {
                let end = ran(start(params, pos), t, all.push(turn));
                &&& end.request == Request::Finished(score)
                &&& end.run.pending == Pending::Finished(score)
                &&& end.thread == b.thread
            }
        }),
{
    let bottom = lemma_opening(params, pos, t, turn);
    let opened = opening(params.kind.root, turn);
    let entry = seq![turn, Reply::Stop(false)];
    let a0 = ran(start(params, pos), t, opened);
    let b0 = quiet_start(search::quiet_params(params), pos);
    lemma_two_parts(start(params, pos), t, opened, entry + replies);
    lemma_two_parts(b0, t, entry, replies);
    lemma_two_parts(a0.run, a0.thread, entry, replies);
    lemma_both_entered(params, pos, t, turn, bottom);
    law_course_is_sound(b0, t, entry);
    let b2 = ran(b0, t, entry);
    let a2 = ran(a0.run, a0.thread, entry);
    lemma_lifted_course(a2.run, b2.run, b2.thread, replies, bottom);
    let all = opened + (entry + replies);
    let a = ran(start(params, pos), t, all);
    let b = ran(b0, t, entry + replies);
    assert(all.push(turn).drop_last() =~= all);
    if b.run.pending is Finished {
        lemma_lifted_end(a.run, b.run, b.thread, turn, bottom);
    }
    if replies.len() == 0 {
        assert(entry + replies =~= entry);
    }
}

} // verus!
