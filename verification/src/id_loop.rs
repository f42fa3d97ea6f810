//! Iterative deepening: the search of the root, depth by depth, each with a window
//! around the score of the one before.
use vstd::prelude::*;

use crate::limits::MAX_PLY;
use crate::math;
use crate::node::{NodeKind, Params};
use crate::pv::{clone_line, line_slice};
use crate::board::Move;
use crate::score::{Score, ScoreScale};
use crate::thread::{ThreadCtx, ThreadView};

verus! {

/// What the iteration needs to go on.
#[derive(Clone, Copy, Debug, PartialEq, Eq, Structural)]
pub enum IdNext {
    /// A search of the root with these parameters.
    Search(Params),
    /// Whether the time allows for a depth after this one.
    CheckTime(u16),
    /// A report of the depth that was just searched through.
    Report { score: Score, depth: u16 },
    /// Nothing: it is over.
    Over,
}

/// The state of an iteration.
#[derive(Clone, Copy, Debug, PartialEq, Eq, Structural)]
pub struct IdLoop {
    pub depth: u16,
    /// The score of the last depth that was searched through.
    pub best_score: Score,
    pub alpha: Score,
    pub beta: Score,
    /// By how much the window is moved when it has failed.
    pub delta: i16,
}

/// The half-width of the first window of a depth.
pub const ASP_INITIAL_WINDOW: i16 = 25;

/// The depth from which on windows are narrow.
pub const ASP_MIN_DEPTH: u16 = 5;

/// The number halfway between two others, rounded toward zero.
pub open spec fn midpoint(a: int, b: int) -> int {
    math::trunc_div(a + b, 2)
}

impl IdLoop {
    /// The window is proper and lies on the scale.
    pub open spec fn wf(self, scale: ScoreScale) -> bool {
        &&& 1 <= self.depth <= MAX_PLY
        &&& scale.holds(self.best_score)
        &&& -scale.infinite <= self.alpha.0 < self.beta.0 <= scale.infinite
        &&& self.delta >= ASP_INITIAL_WINDOW
    }

    /// How the root is searched.
    pub open spec fn params(self) -> Params {
        Params {
            kind: NodeKind { root: true, pv: true },
            depth: self.depth as i16,
            ply: 0,
            alpha: self.alpha,
            beta: self.beta,
            cutnode: false,
        }
    }

    /// A depth begins: at low depths with the widest window, later with a narrow one
    /// around the last score.
    pub open spec fn at_depth(depth: u16, best_score: Score, scale: ScoreScale) -> IdLoop {
        if depth < ASP_MIN_DEPTH {
            IdLoop {
                depth,
                best_score,
                alpha: Score((-scale.infinite) as i16),
                beta: Score(scale.infinite),
                delta: ASP_INITIAL_WINDOW,
            }
        } else {
            IdLoop {
                depth,
                best_score,
                alpha: scale.spec_saturating_add(best_score, -ASP_INITIAL_WINDOW as int),
                beta: scale.spec_saturating_add(best_score, ASP_INITIAL_WINDOW as int),
                delta: ASP_INITIAL_WINDOW,
            }
        }
    }

    /// The score was not above the window: it is moved down.
    pub open spec fn lowered(self, score: Score, scale: ScoreScale) -> IdLoop {
        IdLoop {
            beta: Score(midpoint(self.alpha.0 as int, self.beta.0 as int) as i16),
            alpha: scale.spec_saturating_add(score, -self.delta as int),
            delta: math::min(2 * self.delta, i16::MAX as int) as i16,
            ..self
        }
    }

    /// The score was not below the end of the window: its end is moved up.
    pub open spec fn raised(self, score: Score, scale: ScoreScale) -> IdLoop {
        IdLoop {
            beta: scale.spec_saturating_add(score, self.delta as int),
            delta: math::min(2 * self.delta, i16::MAX as int) as i16,
            ..self
        }
    }
}

/// What an iteration and its thread are after a step, and what it needs next.
#[verifier::ext_equal]
pub struct IdStep {
    pub id: IdLoop,
    pub thread: ThreadView,
    pub next: IdNext,
}

/// A depth begins with no ply seen.
pub open spec fn started(depth: u16, best_score: Score, t: ThreadView) -> IdStep {
    let id = IdLoop::at_depth(depth, best_score, t.scale);
    IdStep { id, thread: ThreadView { sel_depth: 0, ..t }, next: IdNext::Search(id.params()) }
}

/// The root has a score. A search that was cut short counts for nothing, unless it is
/// the first. A score outside the window has the same depth searched again. One inside
/// it ends the depth, and the line at the root becomes the line of the search.
pub open spec fn searched(id: IdLoop, t: ThreadView, score: Score) -> IdStep {
    if id.depth > 1 && t.abort_now {
        IdStep { id, thread: t, next: IdNext::Over }
    } else if score.0 <= id.alpha.0 {
        let id1 = id.lowered(score, t.scale);
        IdStep { id: id1, thread: t, next: IdNext::Search(id1.params()) }
    } else if score.0 >= id.beta.0 {
        let id1 = id.raised(score, t.scale);
        IdStep { id: id1, thread: t, next: IdNext::Search(id1.params()) }
    } else {
        IdStep {
            id: IdLoop { best_score: score, ..id },
            thread: ThreadView { root_pv: t.stack[0].pv, ..t },
            next: if id.depth >= MAX_PLY {
                IdNext::Over
            } else {
                IdNext::CheckTime(id.depth)
            },
        }
    }
}

/// Of the threads that search, only the first one reports, and only if asked to.
pub open spec fn spec_reports(t: ThreadView, print: bool) -> bool {
    print && t.id == 0
}

/// The time was checked: it is over, or the depth is reported, or, where nothing is
/// reported, the next depth begins.
pub open spec fn time_checked(id: IdLoop, t: ThreadView, stop: bool, print: bool) -> IdStep {
    if stop {
        IdStep { id, thread: t, next: IdNext::Over }
    } else if spec_reports(t, print) {
        IdStep {
            id,
            thread: t,
            next: IdNext::Report { score: id.best_score, depth: id.depth },
        }
    } else {
        reported(id, t)
    }
}

/// The depth was reported: the next one begins.
pub open spec fn reported(id: IdLoop, t: ThreadView) -> IdStep {
    started((id.depth + 1) as u16, id.best_score, t)
}

/// Does a thread report on its search?
pub fn reports(thread: &ThreadCtx, print: bool) -> (b: bool)
    ensures
        b == spec_reports(thread@, print),
{
    print && thread.id == 0
}

impl IdLoop {
    fn root_params(&self) -> (params: Params)
        ensures
            params == self.params(),
    {
        Params {
            kind: NodeKind { root: true, pv: true },
            depth: self.depth as i16,
            ply: 0,
            alpha: self.alpha,
            beta: self.beta,
            cutnode: false,
        }
    }

    fn start(depth: u16, best_score: Score, thread: &mut ThreadCtx) -> (s: (IdLoop, IdNext))
        requires
            old(thread)@.wf(),
            1 <= depth <= MAX_PLY,
            old(thread)@.scale.holds(best_score),
        ensures
            (IdStep { id: s.0, thread: final(thread)@, next: s.1 }) == started(
                depth,
                best_score,
                old(thread)@,
            ),
            s.0.wf(old(thread)@.scale),
            final(thread)@.wf(),
    {
        thread.sel_depth = 0;
        let scale = thread.scale;
        let delta: i16 = ASP_INITIAL_WINDOW;
        let mut alpha = scale.saturating_add(best_score, -delta);
        let mut beta = scale.saturating_add(best_score, delta);
        if depth < ASP_MIN_DEPTH {
            alpha = Score(-scale.infinite);
            beta = Score(scale.infinite);
        }
        let id = IdLoop { depth, best_score, alpha, beta, delta };
        let params = id.root_params();
        (id, IdNext::Search(params))
    }

    /// Begins an iteration with depth one.
    pub fn begin(thread: &mut ThreadCtx) -> (s: (IdLoop, IdNext))
        requires
            old(thread)@.wf(),
        ensures
            (IdStep { id: s.0, thread: final(thread)@, next: s.1 }) == started(
                1,
                Score((-old(thread)@.scale.infinite) as i16),
                old(thread)@,
            ),
            s.0.wf(old(thread)@.scale),
            final(thread)@.wf(),
            s.1 matches IdNext::Search(params) ==> params.wf(old(thread)@.scale),
    {
        let worst = Score(-thread.scale.infinite);
        IdLoop::start(1, worst, thread)
    }

    /// Takes the score of the root, and says what comes next.
    pub fn searched(&mut self, thread: &mut ThreadCtx, score: Score) -> (next: IdNext)
        requires
            old(thread)@.wf(),
            old(self).wf(old(thread)@.scale),
            old(thread)@.scale.holds(score),
        ensures
            (IdStep { id: *final(self), thread: final(thread)@, next }) == searched(
                *old(self),
                old(thread)@,
                score,
            ),
            final(self).wf(old(thread)@.scale),
            final(thread)@.wf(),
            next matches IdNext::CheckTime(_) ==> final(self).depth < MAX_PLY,
            next matches IdNext::Search(params) ==> params.wf(old(thread)@.scale),
    {
        if self.depth > 1 && thread.abort_now {
            return IdNext::Over;
        }
        let scale = thread.scale;
        if score.0 <= self.alpha.0 || score.0 >= self.beta.0 {
            if score.0 <= self.alpha.0 {
                let middle: i32 = (self.alpha.0 as i32 + self.beta.0 as i32) / 2;
                self.beta = Score(middle as i16);
                self.alpha = scale.saturating_add(score, -self.delta);
            } else {
                self.beta = scale.saturating_add(score, self.delta);
            }
            let asp_widen_factor: i32 = 64;
            let wider: i32 = self.delta as i32 + (self.delta as i32) * asp_widen_factor / 64;
            self.delta = if wider > i16::MAX as i32 { i16::MAX } else { wider as i16 };
            return IdNext::Search(self.root_params());
        }
        self.best_score = score;
        assert(thread@.stack.len() == MAX_PLY + 1);
        assert(thread@.stack[0] == thread.search_stack@[0]@);
        thread.root_pv = clone_line(&thread.search_stack[0].pv);
        if self.depth >= MAX_PLY {
            IdNext::Over
        } else {
            IdNext::CheckTime(self.depth)
        }
    }

    /// Takes the verdict on the time after a depth, and says what comes next. `print`
    /// asks for a report of every depth.
    pub fn time_checked(&mut self, thread: &mut ThreadCtx, stop: bool, print: bool) -> (next: IdNext)
        requires
            old(thread)@.wf(),
            old(self).wf(old(thread)@.scale),
            old(self).depth < MAX_PLY,
        ensures
            (IdStep { id: *final(self), thread: final(thread)@, next }) == time_checked(
                *old(self),
                old(thread)@,
                stop,
                print,
            ),
            final(self).wf(old(thread)@.scale),
            final(thread)@.wf(),
            next is Report ==> final(self).depth < MAX_PLY,
            next matches IdNext::Search(params) ==> params.wf(old(thread)@.scale),
    {
        if stop {
            return IdNext::Over;
        }
        if reports(thread, print) {
            return IdNext::Report { score: self.best_score, depth: self.depth };
        }
        self.reported(thread)
    }

    /// Goes on after a report, and says what comes next.
    pub fn reported(&mut self, thread: &mut ThreadCtx) -> (next: IdNext)
        requires
            old(thread)@.wf(),
            old(self).wf(old(thread)@.scale),
            old(self).depth < MAX_PLY,
        ensures
            (IdStep { id: *final(self), thread: final(thread)@, next }) == reported(
                *old(self),
                old(thread)@,
            ),
            final(self).wf(old(thread)@.scale),
            final(thread)@.wf(),
            next matches IdNext::Search(params) ==> params.wf(old(thread)@.scale),
    {
        let (id, next) = IdLoop::start(self.depth + 1, self.best_score, thread);
        *self = id;
        next
    }
}

/// The move to play: the first of the line, or the first of the root moves if there is
/// no line.
pub open spec fn chosen_move(t: ThreadView) -> Move {
    if t.root_pv.len() > 0 {
        t.root_pv[0]
    } else {
        t.root_moves[0]
    }
}

/// The move to play.
pub fn best_move(thread: &ThreadCtx) -> (mv: Move)
    requires
        thread@.root_pv.len() > 0 || thread@.root_moves.len() > 0,
    ensures
        mv == chosen_move(thread@),
        thread@.root_pv.len() > 0 ==> mv == thread@.root_pv[0],
        thread@.root_pv.len() == 0 ==> mv == thread@.root_moves[0],
{
    let line = line_slice(&thread.root_pv);
    if line.len() > 0 {
        line[0]
    } else {
        thread.root_moves[0]
    }
}

/// A window that failed is followed by a proper one that reaches from the failed score
/// in the direction of the failure: the score lies in the next window or at its end. The
/// end that failed moves out by the current width, or to the end of the scale, and the
/// width doubles as long as it fits.
pub proof fn law_failed_score_is_in_the_next_window(id: IdLoop, t: ThreadView, score: Score)
    requires
        t.wf(),
        id.wf(t.scale),
        t.scale.holds(score),
        !(id.depth > 1 && t.abort_now),
        score.0 <= id.alpha.0 || score.0 >= id.beta.0,
    ensures
        ({
            let next = searched(id, t, score).id;
            &&& next.wf(t.scale)
            &&& next.alpha.0 <= score.0 <= next.beta.0
            &&& next.depth == id.depth
            &&& next.best_score == id.best_score
            &&& next.delta == math::min(2 * id.delta, i16::MAX as int)
            &&& score.0 <= id.alpha.0 ==> next.alpha.0 <= math::max(
                id.alpha.0 - id.delta,
                -t.scale.infinite as int,
            )
            &&& score.0 > id.alpha.0 ==> next.alpha == id.alpha && next.beta.0 >= math::min(
                id.beta.0 + id.delta,
                t.scale.infinite as int,
            )
        }),
{
}

/// Depths follow one another, none is left out, and the last one is the last ply of the
/// search stack. A depth that is not the last is reported before the next one begins,
/// with the deepest ply that it has seen.
pub proof fn law_depths_follow(id: IdLoop, t: ThreadView, score: Score, stop: bool, print: bool)
    requires
        t.wf(),
        id.wf(t.scale),
        t.scale.holds(score),
    ensures
        searched(id, t, score).id.depth == id.depth,
        id.depth == MAX_PLY ==> !(searched(id, t, score).next is CheckTime),
        stop ==> time_checked(id, t, stop, print).next is Over,
        !stop && spec_reports(t, print) ==> time_checked(id, t, stop, print) == (IdStep {
            id,
            thread: t,
            next: IdNext::Report { score: id.best_score, depth: id.depth },
        }),
        !stop && !spec_reports(t, print) ==> time_checked(id, t, stop, print) == reported(id, t),
        id.depth < MAX_PLY ==> reported(id, t).id.depth == id.depth + 1,
        id.depth < MAX_PLY ==> reported(id, t).id.best_score == id.best_score,
        reported(id, t).next is Search,
{
}

/// From the fifth depth on, the first window is narrow and holds the score of the depth
/// before; below that it is as wide as can be.
pub proof fn law_first_window_holds_the_last_score(depth: u16, best_score: Score, t: ThreadView)
    requires
        t.wf(),
        t.scale.holds(best_score),
    ensures
        ({
            let id = started(depth, best_score, t).id;
            &&& id.alpha.0 <= best_score.0 <= id.beta.0
            &&& depth < ASP_MIN_DEPTH ==> id.alpha.0 == -t.scale.infinite && id.beta.0 == t.scale.infinite
            &&& depth >= ASP_MIN_DEPTH ==> id.beta.0 - id.alpha.0 <= 50
        }),
{
}

/// A search that is cut short after the first depth changes neither the score nor the
/// line of the iteration.
pub proof fn law_aborted_depth_counts_for_nothing(id: IdLoop, t: ThreadView, score: Score)
    requires
        id.depth > 1,
        t.abort_now,
    ensures
        searched(id, t, score).id == id,
        searched(id, t, score).thread == t,
        searched(id, t, score).next is Over,
{
}

} // verus!
