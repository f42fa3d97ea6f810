//! Where the lines of a run come from.
use vstd::prelude::*;

use crate::board::{Move, Position};
use crate::course;
use crate::limits::MAX_PLY;
use crate::node::{Made, Outcome, Params, Reply};
use crate::qsearch;
use crate::qsearch::{QNode, QPhase};
use crate::qsearch_laws;
use crate::run;
use crate::run::{FrameView, Pending, RunView};
use crate::run_laws;
use crate::search;
use crate::search::{NodeView, Phase};
use crate::search_laws;
use crate::thread::ThreadView;

verus! {

/// The moves of a line as they are made on the board.
pub open spec fn as_made(line: Seq<Move>) -> Seq<Made> {
    line.map_values(|mv: Move| Made::Move(mv))
}

/// The line was once on the board, on top of what was made before.
pub open spec fn was_played(boards: Set<Seq<Made>>, from: Seq<Made>, line: Seq<Move>) -> bool {
    boards.contains(from + as_made(line))
}

pub open spec fn frame_pv(frame: FrameView) -> bool {
    match frame {
        FrameView::Main(n) => n.core.params.kind.pv,
        FrameView::Quiet(n) => n.params.kind.pv,
    }
}

/// The node is the root of a search.
pub open spec fn frame_root(frame: FrameView) -> bool {
    frame matches FrameView::Main(n) && n.core.params.kind.root
}

pub open spec fn frame_entered(frame: FrameView) -> bool {
    match frame {
        FrameView::Main(n) => search_laws::entered(n),
        FrameView::Quiet(n) => qsearch_laws::entered(n),
    }
}

/// The node waits for the full search of a move.
pub open spec fn in_full(frame: FrameView) -> bool {
    match frame {
        FrameView::Main(n) => n.core.phase is Full,
        FrameView::Quiet(n) => n.phase is Child,
    }
}

/// What is known of a node by itself.
pub open spec fn steady(frame: FrameView) -> bool {
    frame matches FrameView::Main(n) ==> {
        &&& search_laws::scouts_later_moves(n)
        &&& n.core.params.kind.root ==> !(n.core.phase is Entry)
        &&& n.core.params.kind.pv && n.core.phase is Quiesce ==> n.core.params.ply <= MAX_PLY
    }
}

/// The child of a node that searches a move in full lies on the principal variation if and
/// only if the node does.
pub open spec fn heir(frame: FrameView, child_pv: bool) -> bool {
    in_full(frame) ==> child_pv == frame_pv(frame)
}

/// The line of a node on the principal variation was played from where the node is.
pub open spec fn line_ok(frame: FrameView, from: Seq<Made>, t: ThreadView, boards: Set<Seq<Made>>) -> bool {
    frame_pv(frame) && frame_entered(frame) ==> was_played(boards, from, t.stack[frame.ply()].pv)
}

/// The line that the child has left was played from where the child was, unless the search
/// is to end.
pub open spec fn child_line_ok(
    frame: FrameView,
    child: Seq<Made>,
    t: ThreadView,
    boards: Set<Seq<Made>>,
) -> bool {
    frame.ply() < MAX_PLY ==> t.abort_now || was_played(boards, child, t.stack[frame.ply() + 1].pv)
}

/// A move that claims the line of a node was played, with the line of the child after it.
pub open spec fn claim_ok(frame: FrameView, from: Seq<Made>, t: ThreadView, boards: Set<Seq<Made>>) -> bool {
    match frame {
        FrameView::Main(n) => n.core.phase matches Phase::Unmake(trial, score) ==> search_laws::claims(n, score)
            ==> child_line_ok(frame, from.push(Made::Move(trial.mv)), t, boards),
        FrameView::Quiet(n) => n.phase matches QPhase::Unmake(mv, _) ==> n.params.kind.pv ==> child_line_ok(
            frame,
            from.push(Made::Move(mv)),
            t,
            boards,
        ),
    }
}

/// The node has got back a child that it searched in full.
pub open spec fn returned_ok(frame: FrameView, child: Seq<Made>, t: ThreadView, boards: Set<Seq<Made>>) -> bool {
    in_full(frame) && frame_pv(frame) ==> child_line_ok(frame, child, t, boards)
}

pub open spec fn heir_at(frames: Seq<FrameView>, i: int) -> bool {
    heir(frames[i], frame_pv(frames[i + 1]))
}

/// What is known of the nodes of a stack: what is made below each of them was on the board,
/// each sits at the ply that this leads to, their lines were played, and the first one is
/// the root.
#[verifier::opaque]
pub open spec fn stacked(frames: Seq<FrameView>, t: ThreadView, boards: Set<Seq<Made>>, base: int) -> bool {
    &&& forall|i: int| 0 <= i <= frames.len() ==> boards.contains(run::path(#[trigger] frames.take(i)))
    &&& forall|i: int|
        0 <= i < frames.len() ==> line_ok(#[trigger] frames[i], run::path(frames.take(i)), t, boards)
    &&& forall|i: int| 0 <= i < frames.len() - 1 ==> #[trigger] heir_at(frames, i)
    &&& forall|i: int| 0 <= i < frames.len() ==> steady(#[trigger] frames[i])
    &&& forall|i: int|
        0 <= i < frames.len() ==> (#[trigger] frames[i]).ply() == base + run::path(frames.take(i)).len()
    &&& frames.len() > 0 ==> frame_root(frames[0])
}

/// All lines of a run that starts at its root were played.
pub open spec fn trail(run: RunView, t: ThreadView, boards: Set<Seq<Made>>, base: int) -> bool {
    run.pending is Stuck || {
        &&& stacked(run.frames, t, boards, base)
        &&& match run.pending {
            Pending::Answer => claim_ok(run.frames.last(), run::path(run.frames.drop_last()), t, boards),
            Pending::Search(params, _) => {
                &&& params.ply == base + run::path(run.frames).len()
                &&& params.kind.root == (run.frames.len() == 0)
                &&& run.frames.len() > 0 ==> heir(run.frames.last(), params.kind.pv)
            },
            Pending::Quiesce(params, _) => {
                &&& params.ply == base + run::path(run.frames).len()
                &&& run.frames.len() > 0
                &&& heir(run.frames.last(), params.kind.pv)
            },
            Pending::Return(_) => returned_ok(run.frames.last(), run::path(run.frames), t, boards),
            Pending::Finished(_) => was_played(boards, Seq::empty(), t.stack[base].pv),
            Pending::Stuck => true,
        }
    }
}

/// What a step of the node on top gives: it touches no other ply, its line was played
/// whenever it has changed or is its own, and its child is searched as its kind asks.
#[verifier::opaque]
pub open spec fn lawful(
    from: Seq<Made>,
    after: FrameView,
    t: ThreadView,
    then: ThreadView,
    out: Outcome,
    boards: Set<Seq<Made>>,
) -> bool {
    let ply = after.ply();
    let now = then.stack[ply].pv;
    &&& then.stack.len() == t.stack.len()
    &&& forall|i: int| 0 <= i < t.stack.len() && i != ply ==> #[trigger] then.stack[i] == t.stack[i]
    &&& out is Overrun || now == t.stack[ply].pv || was_played(boards, from, now)
    &&& !(out is Done || out is Overrun) ==> line_ok(after, from, then, boards) && steady(after)
    &&& out is Done && frame_pv(after) ==> then.abort_now || was_played(boards, from, now)
    &&& out is Done && frame_root(after) ==> was_played(boards, from, now)
    &&& out is Ask ==> claim_ok(after, from, then, boards)
    &&& out matches Outcome::Search(params, _) ==> heir(after, params.kind.pv) && !params.kind.root && params.ply
        == ply + crate::node::plies(after.made())
    &&& out matches Outcome::Quiesce(params, _) ==> heir(after, params.kind.pv) && params.ply == ply
        + crate::node::plies(after.made())
    &&& t.abort_now ==> then.abort_now
}

/// The node has its line on the stack, if it has one.
pub open spec fn on_stack(frame: FrameView, t: ThreadView) -> bool {
    frame_pv(frame) && frame_entered(frame) ==> 0 <= frame.ply() < t.stack.len()
}

/// Nodes further up have more made below them, or the same.
pub proof fn lemma_path_grows(frames: Seq<FrameView>, i: int, j: int)
    requires
        0 <= i <= j <= frames.len(),
    ensures
        run::path(frames.take(i)).len() <= run::path(frames.take(j)).len(),
        run::path(frames.take(i)).len() == run::path(frames.take(j)).len() ==> run::path(frames.take(i))
            == run::path(frames.take(j)),
    decreases j - i,
{
    if i < j {
        lemma_path_grows(frames, i, j - 1);
        assert(frames.take(j) =~= frames.take(j - 1).push(frames[j - 1]));
        run_laws::lemma_path_push(frames.take(j - 1), frames[j - 1]);
    }
}

/// The lower nodes of a stack keep their lines while the node on top takes a step.
proof fn lemma_below_stacked(
    below: Seq<FrameView>,
    after: FrameView,
    t: ThreadView,
    then: ThreadView,
    out: Outcome,
    boards: Set<Seq<Made>>,
    more: Seq<Made>,
    base: int,
)
    requires
        stacked(below, t, boards, base),
        after.ply() == base + run::path(below).len(),
        lawful(run::path(below), after, t, then, out, boards),
        !(out is Overrun),
        forall|i: int| 0 <= i < below.len() ==> on_stack(#[trigger] below[i], t),
    ensures
        stacked(below, then, boards.insert(more), base),
{
    reveal(stacked);
    reveal(lawful);
    let wider = boards.insert(more);
    assert forall|i: int| 0 <= i < below.len() implies line_ok(
        #[trigger] below[i],
        run::path(below.take(i)),
        then,
        wider,
    ) by {
        assert(line_ok(below[i], run::path(below.take(i)), t, boards));
        lemma_path_grows(below, i, below.len() as int);
        assert(below.take(below.len() as int) =~= below);
        if below[i].ply() == after.ply() {
            assert(run::path(below.take(i)) == run::path(below));
        }
    }
    assert forall|i: int| 0 <= i <= below.len() implies wider.contains(run::path(#[trigger] below.take(i))) by {
        assert(boards.contains(run::path(below.take(i))));
    }
}

/// A node that goes on after a lawful step stands on the lower ones.
proof fn lemma_pushed(
    below: Seq<FrameView>,
    after: FrameView,
    then: ThreadView,
    boards: Set<Seq<Made>>,
    base: int,
)
    requires
        stacked(below, then, boards, base),
        boards.contains(run::path(below.push(after))),
        line_ok(after, run::path(below), then, boards),
        steady(after),
        after.ply() == base + run::path(below).len(),
        below.len() > 0 ==> heir(below.last(), frame_pv(after)),
        below.len() == 0 ==> frame_root(after),
    ensures
        stacked(below.push(after), then, boards, base),
{
    reveal(stacked);
    let all = below.push(after);
    assert forall|i: int| 0 <= i <= all.len() implies boards.contains(run::path(#[trigger] all.take(i))) by {
        if i < all.len() {
            assert(all.take(i) =~= below.take(i));
        } else {
            assert(all.take(i) =~= all);
        }
    }
    assert forall|i: int| 0 <= i < all.len() implies line_ok(
        #[trigger] all[i],
        run::path(all.take(i)),
        then,
        boards,
    ) && steady(all[i]) && all[i].ply() == base + run::path(all.take(i)).len() by {
        if i < below.len() {
            assert(all[i] == below[i]);
            assert(all.take(i) =~= below.take(i));
        } else {
            assert(all.take(i) =~= below);
        }
    }
    assert forall|i: int| 0 <= i < all.len() - 1 implies #[trigger] heir_at(all, i) by {
        if i < below.len() - 1 {
            assert(heir_at(below, i));
        }
    }
}

/// What the node below a finished one gets back.
proof fn lemma_handed_back(
    below: Seq<FrameView>,
    after: FrameView,
    t: ThreadView,
    then: ThreadView,
    boards: Set<Seq<Made>>,
    more: Seq<Made>,
    base: int,
)
    requires
        stacked(below, t, boards, base),
        after.ply() == base + run::path(below).len(),
        frame_pv(after) ==> then.abort_now || was_played(boards, run::path(below), then.stack[after.ply()].pv),
        below.len() > 0,
        heir(below.last(), frame_pv(after)),
    ensures
        returned_ok(below.last(), run::path(below), then, boards.insert(more)),
{
    let parent = below.last();
    let rest = below.drop_last();
    lemma_stacked_below(below, t, boards, base);
    assert(below =~= rest.push(parent));
    run_laws::lemma_path_push(rest, parent);
}

/// A lawful step of the node on top keeps the trail.
proof fn lemma_settle_trail(
    below: Seq<FrameView>,
    after: FrameView,
    t: ThreadView,
    then: ThreadView,
    out: Outcome,
    boards: Set<Seq<Made>>,
    base: int,
)
    requires
        stacked(below, t, boards, base),
        after.ply() == base + run::path(below).len(),
        lawful(run::path(below), after, t, then, out, boards),
        below.len() > 0 ==> heir(below.last(), frame_pv(after)),
        below.len() == 0 ==> frame_root(after),
        forall|i: int| 0 <= i < below.len() ==> on_stack(#[trigger] below[i], t),
    ensures
        ({
            let s = run::settle(below.push(after), then, out);
            trail(s.run, then, boards.insert(run::path(s.run.frames)), base)
        }),
{
    let all = below.push(after);
    let s = run::settle(all, then, out);
    let more = run::path(s.run.frames);
    let wider = boards.insert(more);
    assert(all.drop_last() =~= below);
    assert(all.last() == after);
    run_laws::lemma_path_push(below, after);
    reveal(lawful);
    if !(out is Overrun) {
        lemma_below_stacked(below, after, t, then, out, boards, more, base);
    }
    if out is Done {
        assert(s.run.frames =~= below);
        if below.len() == 0 {
            assert(run::path(below) =~= Seq::<Made>::empty());
        } else {
            lemma_handed_back(below, after, t, then, boards, more, base);
        }
    } else if !(out is Overrun) {
        lemma_pushed(below, after, then, wider, base);
    }
}

proof fn lemma_longer(from: Seq<Made>, mv: Move, line: Seq<Move>)
    ensures
        from.push(Made::Move(mv)) + as_made(line) == from + as_made(seq![mv] + line),
        from + as_made(Seq::empty()) == from,
{
    assert(from.push(Made::Move(mv)) + as_made(line) =~= from + as_made(seq![mv] + line));
    assert(from + as_made(Seq::empty()) =~= from);
}

/// A node that waits to be entered ends because the search is to end, or is entered.
proof fn lemma_entry(n: NodeView, t: ThreadView, reply: Reply)
    requires
        n.core.phase is Entry,
        n.answered_by(t.scale, reply),
    ensures
        ({
            let step = search::next(n, t, reply);
            ||| step == search::enter(n, t)
            ||| step.out is Done && step.thread.abort_now && step.thread.stack == t.stack
        }),
{
    reveal(search::next);
}

proof fn lemma_main_lawful(below: Seq<FrameView>, n: NodeView, t: ThreadView, reply: Reply, boards: Set<Seq<Made>>)
    requires
        t.wf(),
        n.wf(t.scale),
        n.answered_by(t.scale, reply),
        boards.contains(run::path(below)),
        steady(FrameView::Main(n)),
        line_ok(FrameView::Main(n), run::path(below), t, boards),
        claim_ok(FrameView::Main(n), run::path(below), t, boards),
        returned_ok(FrameView::Main(n), run::path(below.push(FrameView::Main(n))), t, boards),
    ensures
        ({
            let step = search::next(n, t, reply);
            lawful(run::path(below), FrameView::Main(step.node), t, step.thread, step.out, boards)
        }),
{
    reveal(lawful);
    let from = run::path(below);
    let step = search::next(n, t, reply);
    let after = FrameView::Main(step.node);
    let ply = n.core.params.ply as int;
    run_laws::lemma_path_push(below, FrameView::Main(n));
    search_laws::law_step_is_sound(n, t, reply);
    if n.core.phase is Entry {
        search_laws::law_entering(n, t);
        lemma_entry(n, t, reply);
        lemma_longer(from, Move { from: 0, to: 0, code: 0, tactic: false, quiet: false }, Seq::empty());
    } else {
        search_laws::law_lines_are_traced(n, t, reply);
        if let Phase::Unmake(trial, score) = n.core.phase {
            if step.thread.stack[ply].pv != t.stack[ply].pv {
                lemma_longer(from, trial.mv, t.stack[ply + 1].pv);
            }
        }
        if let Phase::Unmake(trial, score) = step.node.core.phase {
            if search_laws::claims(step.node, score) && ply < MAX_PLY {
                assert(step.thread.stack[ply + 1] == t.stack[ply + 1]);
            }
        }
    }
}

proof fn lemma_quiet_lawful(below: Seq<FrameView>, n: QNode, t: ThreadView, reply: Reply, boards: Set<Seq<Made>>)
    requires
        t.wf(),
        n.wf(t.scale),
        n.answered_by(t, reply),
        boards.contains(run::path(below)),
        line_ok(FrameView::Quiet(n), run::path(below), t, boards),
        claim_ok(FrameView::Quiet(n), run::path(below), t, boards),
        returned_ok(FrameView::Quiet(n), run::path(below.push(FrameView::Quiet(n))), t, boards),
    ensures
        ({
            let step = qsearch::next(n, t, reply);
            lawful(run::path(below), FrameView::Quiet(step.node), t, step.thread, step.out, boards)
        }),
{
    reveal(lawful);
    let from = run::path(below);
    let step = qsearch::next(n, t, reply);
    let ply = n.params.ply as int;
    run_laws::lemma_path_push(below, FrameView::Quiet(n));
    qsearch_laws::law_step_is_sound(n, t, reply);
    qsearch_laws::law_lines_are_traced(n, t, reply);
    lemma_longer(from, Move { from: 0, to: 0, code: 0, tactic: false, quiet: false }, Seq::empty());
    if let QPhase::Unmake(mv, _) = n.phase {
        lemma_longer(from, mv, t.stack[ply + 1].pv);
    }
    if ply < MAX_PLY {
        assert(step.thread.stack[ply + 1] == t.stack[ply + 1]);
    }
}

proof fn lemma_begin_lawful(below: Seq<FrameView>, params: Params, pos: Position, t: ThreadView, boards: Set<Seq<Made>>)
    requires
        t.wf(),
        pos.wf(),
        params.wf(t.scale),
        boards.contains(run::path(below)),
    ensures
        ({
            let step = search::begin(params, pos, t);
            lawful(run::path(below), FrameView::Main(step.node), t, step.thread, step.out, boards)
        }),
        ({
            let step = qsearch::begin(params, pos, t);
            lawful(run::path(below), FrameView::Quiet(step.node), t, step.thread, step.out, boards)
        }),
{
    reveal(lawful);
    let from = run::path(below);
    lemma_longer(from, Move { from: 0, to: 0, code: 0, tactic: false, quiet: false }, Seq::empty());
    search_laws::law_begin_is_sound(params, pos, t);
    search_laws::law_entering(search::fresh(params, pos, t.scale), t);
    qsearch_laws::law_begin_is_sound(params, pos, t);
}

/// The lower nodes of a run have their lines on the stack.
proof fn lemma_on_stack(frames: Seq<FrameView>, t: ThreadView, boards: Set<Seq<Made>>, base: int)
    requires
        t.wf(),
        run::all_wait(frames, t.scale),
        stacked(frames, t, boards, base),
    ensures
        forall|i: int| 0 <= i < frames.len() ==> on_stack(#[trigger] frames[i], t),
{
    reveal(stacked);
    assert forall|i: int| 0 <= i < frames.len() implies on_stack(#[trigger] frames[i], t) by {
        assert(frames[i].wf(t.scale) && frames[i].awaits_child());
        assert(steady(frames[i]));
    }
}

/// What is known of a stack, of the node on top and of those below.
pub proof fn lemma_stacked_below(frames: Seq<FrameView>, t: ThreadView, boards: Set<Seq<Made>>, base: int)
    requires
        stacked(frames, t, boards, base),
        frames.len() > 0,
    ensures
        ({
            let below = frames.drop_last();
            let top = frames.last();
            &&& stacked(below, t, boards, base)
            &&& boards.contains(run::path(below))
            &&& line_ok(top, run::path(below), t, boards)
            &&& steady(top)
            &&& top.ply() == base + run::path(below).len()
            &&& below.len() > 0 ==> heir(below.last(), frame_pv(top))
            &&& below.len() == 0 ==> frame_root(top)
        }),
{
    reveal(stacked);
    let below = frames.drop_last();
    let k = frames.len() - 1;
    assert(frames.take(k) =~= below);
    assert(frames[k] == frames.last());
    assert(line_ok(frames[k], run::path(frames.take(k)), t, boards));
    assert(frames[k].ply() == base + run::path(frames.take(k)).len());
    assert(steady(frames[k]));
    assert(boards.contains(run::path(frames.take(k))));
    assert forall|i: int| 0 <= i <= below.len() implies boards.contains(run::path(#[trigger] below.take(i))) by {
        assert(below.take(i) =~= frames.take(i));
    }
    assert forall|i: int| 0 <= i < below.len() implies line_ok(
        #[trigger] below[i],
        run::path(below.take(i)),
        t,
        boards,
    ) && steady(below[i]) && below[i].ply() == base + run::path(below.take(i)).len() by {
        assert(below.take(i) =~= frames.take(i));
        assert(below[i] == frames[i]);
    }
    assert forall|i: int| 0 <= i < below.len() - 1 implies #[trigger] heir_at(below, i) by {
        assert(heir_at(frames, i));
    }
    if below.len() > 0 {
        assert(heir_at(frames, k - 1));
    }
}

/// The node on top takes a reply.
proof fn lemma_fed(
    frames: Seq<FrameView>,
    t: ThreadView,
    reply: Reply,
    boards: Set<Seq<Made>>,
    base: int,
)
    requires
        t.wf(),
        frames.len() > 0,
        run::all_wait(frames.drop_last(), t.scale),
        frames.last().wf(t.scale),
        frames.last().answered_by(t, reply),
        stacked(frames, t, boards, base),
        claim_ok(frames.last(), run::path(frames.drop_last()), t, boards),
        returned_ok(frames.last(), run::path(frames), t, boards),
    ensures
        ({
            let s = run::feed(frames, t, reply);
            trail(s.run, s.thread, boards.insert(run::path(s.run.frames)), base)
        }),
{
    let below = frames.drop_last();
    let top = frames.last();
    assert(frames =~= below.push(top));
    lemma_stacked_below(frames, t, boards, base);
    lemma_on_stack(below, t, boards, base);
    match top {
        FrameView::Main(n) => {
            search_laws::law_step_is_sound(n, t, reply);
            lemma_main_lawful(below, n, t, reply, boards);
            let step = search::next(n, t, reply);
            lemma_settle_trail(below, FrameView::Main(step.node), t, step.thread, step.out, boards, base);
        },
        FrameView::Quiet(n) => {
            qsearch_laws::law_step_is_sound(n, t, reply);
            lemma_quiet_lawful(below, n, t, reply, boards);
            let step = qsearch::next(n, t, reply);
            lemma_settle_trail(below, FrameView::Quiet(step.node), t, step.thread, step.out, boards, base);
        },
    }
}

/// Whatever the reply is, all lines of a run that starts at its root go on to be lines that
/// were played.
pub proof fn law_trail_is_kept(run: RunView, t: ThreadView, reply: Reply, boards: Set<Seq<Made>>, base: int)
    requires
        t.wf(),
        run.wf(t.scale),
        run.answered_by(t, reply),
        trail(run, t, boards, base),
    ensures
        ({
            let s = run::advanced(run, t, reply);
            trail(s.run, s.thread, boards.insert(run::path(s.run.frames)), base)
        }),
{
    reveal(run::advanced);
    match run.pending {
        Pending::Answer => lemma_fed(run.frames, t, reply, boards, base),
        Pending::Return(score) => {
            let below = run.frames.drop_last();
            let last = run.frames[run.frames.len() - 1];
            assert(last.wf(t.scale) && last.awaits_child());
            assert forall|i: int| 0 <= i < below.len() implies (#[trigger] below[i]).wf(t.scale)
                && below[i].awaits_child() by {
                assert(below[i] == run.frames[i]);
            }
            lemma_fed(run.frames, t, Reply::Child(score), boards, base);
        },
        Pending::Search(params, pos) => {
            lemma_here(run.frames, t, boards, base);
            lemma_on_stack(run.frames, t, boards, base);
            search_laws::law_begin_is_sound(params, pos, t);
            lemma_begin_lawful(run.frames, params, pos, t, boards);
            let step = search::begin(params, pos, t);
            lemma_settle_trail(
                run.frames,
                FrameView::Main(step.node),
                t,
                step.thread,
                step.out,
                boards,
                base,
            );
        },
        Pending::Quiesce(params, pos) => {
            lemma_here(run.frames, t, boards, base);
            lemma_on_stack(run.frames, t, boards, base);
            qsearch_laws::law_begin_is_sound(params, pos, t);
            lemma_begin_lawful(run.frames, params, pos, t, boards);
            let step = qsearch::begin(params, pos, t);
            lemma_settle_trail(
                run.frames,
                FrameView::Quiet(step.node),
                t,
                step.thread,
                step.out,
                boards,
                base,
            );
        },
        Pending::Finished(_) => {
            lemma_wider(run.frames, t, boards, run::path(run.frames), base);
        },
        Pending::Stuck => {},
    }
}

proof fn lemma_here(frames: Seq<FrameView>, t: ThreadView, boards: Set<Seq<Made>>, base: int)
    requires
        stacked(frames, t, boards, base),
    ensures
        boards.contains(run::path(frames)),
{
    reveal(stacked);
    assert(frames.take(frames.len() as int) =~= frames);
    assert(boards.contains(run::path(frames.take(frames.len() as int))));
}

proof fn lemma_wider(frames: Seq<FrameView>, t: ThreadView, boards: Set<Seq<Made>>, more: Seq<Made>, base: int)
    requires
        stacked(frames, t, boards, base),
    ensures
        stacked(frames, t, boards.insert(more), base),
{
    reveal(stacked);
    let wider = boards.insert(more);
    assert forall|i: int| 0 <= i <= frames.len() implies wider.contains(run::path(#[trigger] frames.take(i))) by {
        assert(boards.contains(run::path(frames.take(i))));
    }
    assert forall|i: int| 0 <= i < frames.len() implies line_ok(
        #[trigger] frames[i],
        run::path(frames.take(i)),
        t,
        wider,
    ) by {
        assert(line_ok(frames[i], run::path(frames.take(i)), t, boards));
    }
}

/// What was on the board in the course of a run, at one time or another.
pub open spec fn boards(run: RunView, t: ThreadView, replies: Seq<Reply>) -> Set<Seq<Made>>
    decreases replies.len(),
{
    let here = run::path(course::ran(run, t, replies).run.frames);
    if replies.len() == 0 {
        Set::empty().insert(here)
    } else {
        boards(run, t, replies.drop_last()).insert(here)
    }
}

/// What [`boards`] holds was on the board after some of the replies.
pub proof fn law_boards_were_on_the_board(run: RunView, t: ThreadView, replies: Seq<Reply>, board: Seq<Made>)
    ensures
        boards(run, t, replies).contains(board) <==> exists|k: int|
            0 <= k <= replies.len() && board == run::path(
                (#[trigger] course::ran(run, t, replies.take(k))).run.frames,
            ),
    decreases replies.len(),
{
    let len = replies.len() as int;
    assert(replies.take(len) =~= replies);
    if len > 0 {
        let rest = replies.drop_last();
        law_boards_were_on_the_board(run, t, rest, board);
        if boards(run, t, rest).contains(board) {
            let k = choose|k: int|
                0 <= k <= rest.len() && board == run::path(
                    (#[trigger] course::ran(run, t, rest.take(k))).run.frames,
                );
            assert(rest.take(k) =~= replies.take(k));
            assert(board == run::path(course::ran(run, t, replies.take(k)).run.frames));
        }
        if boards(run, t, replies).contains(board) && !boards(run, t, rest).contains(board) {
            assert(board == run::path(course::ran(run, t, replies.take(len)).run.frames));
        }
        if exists|k: int|
            0 <= k <= replies.len() && board == run::path(
                (#[trigger] course::ran(run, t, replies.take(k))).run.frames,
            ) {
            let k = choose|k: int|
                0 <= k <= replies.len() && board == run::path(
                    (#[trigger] course::ran(run, t, replies.take(k))).run.frames,
                );
            if k < len {
                assert(rest.take(k) =~= replies.take(k));
                assert(board == run::path(course::ran(run, t, rest.take(k)).run.frames));
            }
        }
    } else {
        assert(board == run::path(course::ran(run, t, replies).run.frames) ==> board == run::path(
            course::ran(run, t, replies.take(0)).run.frames,
        ));
        assert(forall|k: int| 0 <= k <= replies.len() ==> #[trigger] replies.take(k) =~= replies);
    }
}

/// The line that a search from its root ends with was played: its moves were made one after
/// another from the root, and stood on the board together at some point of the search. This
/// holds whatever the replies are, and of a search that was cut short too.
pub proof fn law_root_line_was_played(params: Params, pos: Position, t: ThreadView, replies: Seq<Reply>)
    requires
        t.wf(),
        pos.wf(),
        params.wf(t.scale),
        params.kind.root,
        course::well_answered(course::start(params, pos), t, replies),
    ensures
        ({
            let run = course::start(params, pos);
            let end = course::ran(run, t, replies);
            &&& trail(end.run, end.thread, boards(run, t, replies), params.ply as int)
            &&& end.run.pending is Finished ==> boards(run, t, replies).contains(
                as_made(end.thread.stack[params.ply as int].pv),
            )
        }),
    decreases replies.len(),
{
    let run = course::start(params, pos);
    let end = course::ran(run, t, replies);
    let none = Seq::<FrameView>::empty();
    if replies.len() == 0 {
        reveal(stacked);
        assert forall|i: int| 0 <= i <= none.len() implies boards(run, t, replies).contains(
            run::path(#[trigger] none.take(i)),
        ) by {
            assert(none.take(i) =~= none);
        }
    } else {
        law_root_line_was_played(params, pos, t, replies.drop_last());
        course::law_course_is_sound(run, t, replies.drop_last());
        let before = course::ran(run, t, replies.drop_last());
        law_trail_is_kept(
            before.run,
            before.thread,
            replies.last(),
            boards(run, t, replies.drop_last()),
            params.ply as int,
        );
    }
    if end.run.pending is Finished {
        let line = as_made(end.thread.stack[params.ply as int].pv);
        assert(Seq::<Made>::empty() + line =~= line);
    }
}

} // verus!
