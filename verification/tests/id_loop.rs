use icarus_search::board::Move;
use icarus_search::id_loop::{best_move, reports, IdLoop, IdNext};
use icarus_search::node::{NodeKind, Params};
use icarus_search::score::{Score, ScoreScale};
use icarus_search::thread::{update_pv, ThreadCtx};

const SCALE: ScoreScale = ScoreScale { infinite: 32000, max_mate: 31999, nomate: 31000 };

fn mv(from: u8, to: u8) -> Move {
    Move { from, to, code: 0, tactic: false, quiet: true }
}

fn root(depth: i16, alpha: i16, beta: i16) -> IdNext {
    IdNext::Search(Params {
        kind: NodeKind { root: true, pv: true },
        depth,
        ply: 0,
        alpha: Score(alpha),
        beta: Score(beta),
        cutnode: false,
    })
}

#[test]
fn first_depths_have_the_widest_window() {
    let mut thread = ThreadCtx::new(0, SCALE);
    thread.sel_depth = 9;
    let (mut id, next) = IdLoop::begin(&mut thread);
    assert_eq!(next, root(1, -32000, 32000));
    assert_eq!(thread.sel_depth, 0);
    for depth in 1..4u16 {
        assert_eq!(id.searched(&mut thread, Score(10)), IdNext::CheckTime(depth));
        assert_eq!(id.time_checked(&mut thread, false, false), root(depth as i16 + 1, -32000, 32000));
    }
    assert_eq!(id.searched(&mut thread, Score(10)), IdNext::CheckTime(4));
    assert_eq!(id.time_checked(&mut thread, false, false), root(5, -15, 35));
}

fn at_five() -> (ThreadCtx, IdLoop) {
    let mut thread = ThreadCtx::new(0, SCALE);
    let (mut id, _) = IdLoop::begin(&mut thread);
    for _ in 0..4 {
        id.searched(&mut thread, Score(10));
        id.time_checked(&mut thread, false, false);
    }
    (thread, id)
}

#[test]
fn a_window_that_fails_low_moves_down() {
    let (mut thread, mut id) = at_five();
    assert_eq!(id.searched(&mut thread, Score(-15)), root(5, -40, 10));
    assert_eq!(id.delta, 50);
    assert_eq!(id.searched(&mut thread, Score(-100)), root(5, -150, -15));
    assert_eq!(id.delta, 100);
    assert_eq!(id.searched(&mut thread, Score(-100)), IdNext::CheckTime(5));
    assert_eq!(id.best_score, Score(-100));
}

#[test]
fn a_window_that_fails_high_moves_up() {
    let (mut thread, mut id) = at_five();
    assert_eq!(id.searched(&mut thread, Score(35)), root(5, -15, 60));
    assert_eq!(id.searched(&mut thread, Score(31999)), root(5, -15, 32000));
    assert_eq!(id.searched(&mut thread, Score(31999)), IdNext::CheckTime(5));
}

#[test]
fn the_middle_of_a_window_is_rounded_toward_zero() {
    let (mut thread, mut id) = at_five();
    id.alpha = Score(-6);
    id.beta = Score(1);
    assert_eq!(id.searched(&mut thread, Score(-6)), root(5, -31, -2));
    id.alpha = Score(1);
    id.beta = Score(4);
    assert_eq!(id.searched(&mut thread, Score(0)), root(5, -50, 2));
}

#[test]
fn the_width_stops_growing() {
    let (mut thread, mut id) = at_five();
    for _ in 0..20 {
        id.searched(&mut thread, Score(32000));
    }
    assert_eq!(id.delta, i16::MAX);
    assert_eq!(id.beta, Score(32000));
}

#[test]
fn an_aborted_depth_counts_for_nothing() {
    let (mut thread, mut id) = at_five();
    update_pv(&mut thread, 0, mv(1, 2));
    thread.abort_now = true;
    let before = id;
    assert_eq!(id.searched(&mut thread, Score(0)), IdNext::Over);
    assert_eq!(id, before);
    assert_eq!(thread.root_pv.len(), 0);
}

#[test]
fn an_aborted_first_depth_counts() {
    let mut thread = ThreadCtx::new(0, SCALE);
    let (mut id, _) = IdLoop::begin(&mut thread);
    update_pv(&mut thread, 0, mv(1, 2));
    thread.abort_now = true;
    assert_eq!(id.searched(&mut thread, Score(0)), IdNext::CheckTime(1));
    assert_eq!(id.best_score, Score(0));
    assert_eq!(thread.root_pv.as_slice(), &[mv(1, 2)]);
}

#[test]
fn the_iteration_ends_with_the_time_or_the_plies() {
    let (mut thread, mut id) = at_five();
    assert_eq!(id.searched(&mut thread, Score(0)), IdNext::CheckTime(5));
    assert_eq!(id.time_checked(&mut thread, true, true), IdNext::Over);
    id.depth = 255;
    assert_eq!(id.searched(&mut thread, Score(0)), IdNext::Over);
}

#[test]
fn the_line_at_the_root_is_kept() {
    let (mut thread, mut id) = at_five();
    update_pv(&mut thread, 1, mv(5, 6));
    update_pv(&mut thread, 0, mv(3, 4));
    assert_eq!(id.searched(&mut thread, Score(0)), IdNext::CheckTime(5));
    assert_eq!(thread.root_pv.as_slice(), &[mv(3, 4), mv(5, 6)]);
    assert_eq!(best_move(&thread), mv(3, 4));
}

#[test]
fn without_a_line_the_first_root_move_is_played() {
    let mut thread = ThreadCtx::new(0, SCALE);
    thread.root_moves = vec![mv(7, 8), mv(9, 10)];
    assert_eq!(best_move(&thread), mv(7, 8));
}

#[test]
fn a_depth_is_reported_before_the_next_one_begins() {
    let (mut thread, mut id) = at_five();
    thread.sel_depth = 9;
    assert_eq!(id.searched(&mut thread, Score(12)), IdNext::CheckTime(5));
    assert_eq!(id.time_checked(&mut thread, false, true), IdNext::Report { score: Score(12), depth: 5 });
    assert_eq!(thread.sel_depth, 9);
    assert_eq!(id.reported(&mut thread), root(6, -13, 37));
    assert_eq!(thread.sel_depth, 0);
}

#[test]
fn only_the_first_thread_reports() {
    assert!(reports(&ThreadCtx::new(0, SCALE), true));
    assert!(!reports(&ThreadCtx::new(1, SCALE), true));
    assert!(!reports(&ThreadCtx::new(0, SCALE), false));
    let mut thread = ThreadCtx::new(1, SCALE);
    let (mut id, _) = IdLoop::begin(&mut thread);
    id.searched(&mut thread, Score(10));
    assert_eq!(id.time_checked(&mut thread, false, true), root(2, -32000, 32000));
}
