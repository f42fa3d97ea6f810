//! The rules of iterative deepening and of the searcher, over plain values.
use vstd::prelude::*;

use crate::board::Move;
use crate::id_loop;
use crate::id_loop::{IdLoop, IdNext};
use crate::score::Score;
use crate::searcher;
use crate::searcher::{Closing, GlobalCtx, SearchLimit, Searcher, ThreadCmd, WorkerNext};
use crate::thread::ThreadView;

verus! {

/// The root is searched: at ply zero, to the depth of the iteration, with its window.
pub open spec fn searches_root(id: IdLoop, next: IdNext) -> bool {
    next matches IdNext::Search(p) && p.kind.root && p.kind.pv && p.depth == id.depth && p.ply == 0 && p.alpha
        == id.alpha && p.beta == id.beta && !p.cutnode
}

/// A depth begins with no ply seen. Below the fifth the window is the whole scale; from there
/// on it reaches 25 points to either side of the last score, as far as the scale does.
pub proof fn law_depth_begins(depth: u16, best: Score, t: ThreadView)
    requires
        t.wf(),
        t.scale.holds(best),
        depth <= 255,
    ensures
        ({
            let s = id_loop::started(depth, best, t);
            let top = t.scale.infinite as int;
            &&& s.thread == (ThreadView { sel_depth: 0, ..t })
            &&& s.id.depth == depth && s.id.best_score == best && s.id.delta == 25
            &&& depth < 5 ==> s.id.alpha.0 == -top && s.id.beta.0 == top
            &&& depth >= 5 ==> s.id.alpha.0 == if best.0 - 25 >= -top {
                best.0 - 25
            } else {
                -top
            }
            &&& depth >= 5 ==> s.id.beta.0 == if best.0 + 25 <= top {
                best.0 + 25
            } else {
                top
            }
            &&& searches_root(s.id, s.next)
        }),
{
}

/// A score of the root. After the first depth, one of a search that is to end counts for
/// nothing and ends the iteration. One that is not above the window moves its upper end to the
/// middle, rounded toward zero, and its lower end below the score by the current width; one
/// that is not below its upper end moves that above the score by it; either doubles the width
/// as far as it goes, and has the depth searched again. One inside is the score of the depth,
/// and the line at the root becomes the line of the search.
pub proof fn law_root_is_scored(id: IdLoop, t: ThreadView, score: Score)
    requires
        t.wf(),
        id.wf(t.scale),
        t.scale.holds(score),
    ensures
        ({
            let s = id_loop::searched(id, t, score);
            let top = t.scale.infinite as int;
            let cut = t.abort_now && id.depth >= 2;
            let low = score.0 <= id.alpha.0;
            let high = !low && score.0 >= id.beta.0;
            let sum = id.alpha.0 + id.beta.0;
            let wider: int = if 2 * id.delta > 32767 {
                32767
            } else {
                2 * id.delta
            };
            &&& cut ==> s.id == id && s.thread == t && s.next is Over
            &&& !cut && low ==> {
                &&& s.thread == t && searches_root(s.id, s.next)
                &&& s.id == (IdLoop { alpha: s.id.alpha, beta: s.id.beta, delta: wider as i16, ..id })
                &&& sum >= 0 ==> 2 * s.id.beta.0 <= sum <= 2 * s.id.beta.0 + 1
                &&& sum <= 0 ==> 2 * s.id.beta.0 - 1 <= sum <= 2 * s.id.beta.0
                &&& s.id.alpha.0 == if score.0 - id.delta >= -top {
                    score.0 - id.delta
                } else {
                    -top
                }
            }
            &&& !cut && high ==> {
                &&& s.thread == t && searches_root(s.id, s.next)
                &&& s.id == (IdLoop { beta: s.id.beta, delta: wider as i16, ..id })
                &&& s.id.beta.0 == if score.0 + id.delta <= top {
                    score.0 + id.delta
                } else {
                    top
                }
            }
            &&& !cut && !low && !high ==> {
                &&& s.id == (IdLoop { best_score: score, ..id })
                &&& s.thread == (ThreadView { root_pv: t.stack[0].pv, ..t })
                &&& s.next == if id.depth < 255 {
                    IdNext::CheckTime(id.depth)
                } else {
                    IdNext::Over
                }
            }
        }),
{
}

/// The iteration goes on as long as the time lasts: with a report where one is asked of the
/// first thread, and then with the next depth and the last score.
pub proof fn law_time_is_checked(id: IdLoop, t: ThreadView, stop: bool, print: bool)
    requires
        id.depth < 255,
    ensures
        ({
            let s = id_loop::time_checked(id, t, stop, print);
            let reports = print && t.id == 0;
            let on = id_loop::started((id.depth + 1) as u16, id.best_score, t);
            &&& stop ==> s.id == id && s.thread == t && s.next is Over
            &&& !stop && reports ==> s.id == id && s.thread == t && s.next == (IdNext::Report {
                score: id.best_score,
                depth: id.depth,
            })
            &&& !stop && !reports ==> s == on
            &&& id_loop::reported(id, t) == on
            &&& id_loop::spec_reports(t, print) == reports
        }),
{
}

/// The move to play is the first of the line of the search, however short that is, and the
/// first of the root moves only where there is no line.
pub proof fn law_move_to_play(t: ThreadView)
    ensures
        t.root_pv.len() > 0 ==> id_loop::chosen_move(t) == t.root_pv[0],
        t.root_pv.len() == 0 ==> id_loop::chosen_move(t) == t.root_moves[0],
{
}

/// A depth that is searched through gives the move to play: the first of the line that the
/// root has then, if it has one.
pub proof fn law_searched_depth_gives_the_move(id: IdLoop, t: ThreadView, score: Score)
    requires
        t.wf(),
        id.wf(t.scale),
        t.scale.holds(score),
        id.alpha.0 < score.0 < id.beta.0,
        !t.abort_now || id.depth == 1,
        t.stack[0].pv.len() > 0,
    ensures
        id_loop::chosen_move(id_loop::searched(id, t, score).thread) == t.stack[0].pv[0],
{
}

/// The counters: joining adds a thread and leaving takes one away, a search begins with one and
/// no node, its end leaves none, nodes add up to where their width ends, and a context that
/// takes the place of another has the next number and counts nothing.
pub proof fn law_counters(g: GlobalCtx, nodes: u64, mb: u64, id: u64)
    ensures
        g.num_searching < u32::MAX ==> g.spec_join().num_searching == g.num_searching + 1,
        g.spec_join() == (GlobalCtx { num_searching: g.spec_join().num_searching, ..g }),
        g.num_searching > 0 ==> g.spec_leave().num_searching == g.num_searching - 1,
        g.spec_leave() == (GlobalCtx { num_searching: g.spec_leave().num_searching, ..g }),
        g.spec_clear() == (GlobalCtx { num_searching: 0, ..g }),
        g.spec_started() == (GlobalCtx { nodes: 0, num_searching: 1, ..g }),
        g.nodes + nodes <= u64::MAX ==> g.spec_count_nodes(nodes).nodes == g.nodes + nodes,
        g.nodes + nodes > u64::MAX ==> g.spec_count_nodes(nodes).nodes == g.nodes + nodes - u64::MAX - 1,
        g.spec_count_nodes(nodes) == (GlobalCtx { nodes: g.spec_count_nodes(nodes).nodes, ..g }),
        g.id < u64::MAX ==> g.spec_replaced(mb) == (GlobalCtx {
            id: (g.id + 1) as u64,
            nodes: 0,
            num_searching: 0,
            ttable_mb: mb,
        }),
        GlobalCtx::idle(id, mb) == (GlobalCtx { id, nodes: 0, num_searching: 0, ttable_mb: mb }),
        (Searcher { global_ctx: g, worker: true }).running() <==> g.num_searching > 0,
        (Searcher { global_ctx: g, worker: false }).running() <==> g.num_searching > 0,
{
}

/// Of several limits with moves the first counts, even an empty one; without any there are no
/// such moves.
pub proof fn law_first_limit_with_moves(limits: Seq<SearchLimit>, i: int)
    ensures
        0 <= i < limits.len() && limits[i] is SearchMoves && (forall|j: int|
            0 <= j < i ==> #[trigger] limits[j] is Clock) ==> searcher::first_moves(limits) == Some(
            limits[i]->SearchMoves_0@,
        ),
        (forall|j: int| 0 <= j < limits.len() ==> #[trigger] limits[j] is Clock) ==> searcher::first_moves(limits)
            is None,
    decreases limits.len(),
{
    if limits.len() > 0 {
        let rest = limits.drop_first();
        law_first_limit_with_moves(rest, i - 1);
        assert(forall|j: int| 0 <= j < rest.len() ==> rest[j] == #[trigger] limits[j + 1]);
        if 0 < i < limits.len() {
            assert(rest[i - 1] == limits[i]);
        }
        if forall|j: int| 0 <= j < limits.len() ==> #[trigger] limits[j] is Clock {
            assert forall|j: int| 0 <= j < rest.len() implies #[trigger] rest[j] is Clock by {
                assert(limits[j + 1] is Clock);
            }
        }
        if 0 < i < limits.len() && (forall|j: int| 0 <= j < i ==> #[trigger] limits[j] is Clock) {
            assert(limits[0] is Clock);
            assert forall|j: int| 0 <= j < i - 1 implies #[trigger] rest[j] is Clock by {
                assert(limits[j + 1] is Clock);
            }
        }
    }
}

/// The moves of a limit are handed on as they are, and where none are named none are.
pub proof fn law_named_moves(moves: Vec<Move>)
    ensures
        searcher::moves_view(Some(moves)) == Some(moves@),
        searcher::moves_view(None) is None,
{
}

/// What a command does. A search is joined with nothing counted, nothing on the stack and
/// nothing aborted, with the moves that it names or else all of them, and keeps what the tables
/// have learned; another context restarts the count of the thread; a new game blanks the
/// tables; and the command to quit, and it alone, ends the worker.
pub proof fn law_what_commands_do(t: ThreadView, g: GlobalCtx, cmd: ThreadCmd, all: Seq<Move>, ply: int)
    requires
        t.scale.wf(),
    ensures
        ({
            let r = searcher::received(t, g, cmd, all);
            &&& cmd matches ThreadCmd::Search(p) ==> {
                &&& r.thread.nodes == 0 && !r.thread.abort_now && r.thread.chess960 == p.chess960
                &&& p.root_moves is None ==> r.thread.root_moves == all
                &&& p.root_moves matches Some(moves) ==> r.thread.root_moves == moves@
                &&& r.thread.stack.len() == 256
                &&& 0 <= ply < 256 ==> r.thread.stack[ply].pv.len() == 0 && r.thread.stack[ply].singular is None
                    && r.thread.stack[ply].static_eval.0 == -t.scale.infinite
                &&& r.thread == (ThreadView {
                    nodes: 0,
                    abort_now: false,
                    chess960: p.chess960,
                    root_moves: r.thread.root_moves,
                    stack: r.thread.stack,
                    ..t
                })
                &&& g.num_searching < u32::MAX ==> r.global == (GlobalCtx {
                    num_searching: (g.num_searching + 1) as u32,
                    ..g
                })
                &&& r.next == (WorkerNext::Search { pos: p.pos, print: p.print_info })
            }
            &&& cmd is SetGlobal ==> r.thread == (ThreadView { nodes: 0, ..t }) && r.global == g && r.next is Wait
            &&& cmd is NewGame ==> r.thread == (ThreadView { tables: crate::history::Tables::blank(), ..t })
                && r.global == g && r.next is Wait
            &&& cmd is Quit ==> r.thread == t && r.global == g
            &&& r.next is Quit <==> cmd is Quit
        }),
{
}

/// What is done at the end, in order: the report of the last depth and the move to play where
/// the thread reports, and then the end of the search for all where it is the last one.
pub proof fn law_what_is_done_at_the_end(score: Score, depth: u16, mv: Move, report: bool, last: bool)
    ensures
        ({
            let todo = searcher::closings(score, depth, mv, report, last);
            let k: int = if report {
                2
            } else {
                0
            };
            &&& todo.len() == k + if last {
                3int
            } else {
                0
            }
            &&& report ==> todo[0] == (Closing::Report { score, depth }) && todo[1] == Closing::BestMove(mv)
            &&& last ==> todo[k] is ClearCount && todo[k + 1] is Wake && todo[k + 2] is AgeTable
        }),
{
}

} // verus!
