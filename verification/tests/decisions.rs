use icarus_search::board::Move;
use icarus_search::decisions::{
    bad_history, corrects, extension, futile, improving, late_move, lmr_depth, null_depth, reverse_futility,
    scout_depth, singular_beta, static_eval, try_null_move, try_singular, tt_cutoff,
};
use icarus_search::node::{TTEntry, TTFlag};
use icarus_search::score::{Score, ScoreScale};
use icarus_search::thread::SearchStackEntry;

const SCALE: ScoreScale = ScoreScale { infinite: 32000, max_mate: 31999, nomate: 31000 };

fn mv(from: u8, to: u8) -> Move {
    Move { from, to, code: 0, tactic: false, quiet: true }
}

fn entry(flag: TTFlag, score: i16) -> TTEntry {
    TTEntry { mv: Some(mv(1, 2)), depth: 7, score: Score(score), eval: Score(3), flag }
}

#[test]
fn tt_cutoff_needs_the_right_bound() {
    let (a, b) = (Score(10), Score(20));
    assert!(tt_cutoff(&entry(TTFlag::Exact, 15), a, b));
    assert!(tt_cutoff(&entry(TTFlag::Lower, 20), a, b));
    assert!(!tt_cutoff(&entry(TTFlag::Lower, 19), a, b));
    assert!(tt_cutoff(&entry(TTFlag::Upper, 10), a, b));
    assert!(!tt_cutoff(&entry(TTFlag::Upper, 11), a, b));
}

#[test]
fn static_eval_is_clamped() {
    assert_eq!(static_eval(&SCALE, Score(100), 20), Score(120));
    assert_eq!(static_eval(&SCALE, Score(30990), 20), Score(31000));
    assert_eq!(static_eval(&SCALE, Score(i16::MAX), 320), Score(31000));
    assert_eq!(static_eval(&SCALE, Score(i16::MIN), -320), Score(-31000));
}

#[test]
fn improving_looks_two_and_four_plies_back() {
    let mut stack: Vec<SearchStackEntry> = (0..6).map(|_| SearchStackEntry::default(&SCALE)).collect();
    assert!(improving(&stack, 5, false, Score(-50), &SCALE));
    assert!(!improving(&stack, 5, true, Score(-50), &SCALE));
    stack[1].static_eval = Score(10);
    assert!(!improving(&stack, 5, false, Score(10), &SCALE));
    assert!(improving(&stack, 5, false, Score(11), &SCALE));
    stack[3].static_eval = Score(-10);
    assert!(improving(&stack, 5, false, Score(0), &SCALE));
    assert!(improving(&stack, 1, false, Score(-9999), &SCALE));
}

#[test]
fn reverse_futility_margin() {
    assert!(reverse_futility(3, false, Score(340), Score(100)));
    assert!(!reverse_futility(3, false, Score(339), Score(100)));
    assert!(reverse_futility(3, true, Score(260), Score(100)));
    assert!(!reverse_futility(6, true, Score(31000), Score(100)));
    assert!(reverse_futility(1, true, Score(100), Score(100)));
    assert!(reverse_futility(0, true, Score(100), Score(100)));
}

#[test]
fn null_move_conditions() {
    assert!(try_null_move(3, Score(5), Score(5), true));
    assert!(!try_null_move(2, Score(5), Score(5), true));
    assert!(!try_null_move(3, Score(4), Score(5), true));
    assert!(!try_null_move(3, Score(5), Score(5), false));
    assert_eq!(null_depth(3), -1);
    assert_eq!(null_depth(10), 4);
}

#[test]
fn late_move_counts() {
    assert_eq!(lmr_depth(5, 2), 3);
    assert_eq!(lmr_depth(2, 5), 0);
    assert_eq!(lmr_depth(2, -5), 7);
    assert!(late_move(4, 0, true));
    assert!(!late_move(3, 0, true));
    assert!(late_move(2, 0, false));
    assert!(late_move(13, 3, true));
    assert!(!late_move(12, 3, true));
    assert!(late_move(7, 3, false));
    assert!(!late_move(6, 3, false));
}

#[test]
fn futility_margin() {
    assert!(futile(false, 2, false, Score(0), Score(260)));
    assert!(!futile(false, 2, false, Score(0), Score(259)));
    assert!(!futile(true, 2, false, Score(0), Score(260)));
    assert!(!futile(false, 2, true, Score(0), Score(260)));
    assert!(!futile(false, 9, false, Score(-31000), Score(31000)));
}

#[test]
fn history_margin() {
    assert!(bad_history(5, 2, -4001));
    assert!(!bad_history(5, 2, -4000));
    assert!(!bad_history(6, 2, -32768));
    assert!(bad_history(1, 0, -1));
}

#[test]
fn singular_conditions() {
    let e = Some(entry(TTFlag::Lower, 50));
    assert!(try_singular(false, false, 8, e, mv(1, 2)));
    assert!(try_singular(false, false, 10, e, mv(1, 2)));
    assert!(!try_singular(false, false, 11, e, mv(1, 2)));
    assert!(!try_singular(false, false, 7, e, mv(1, 2)));
    assert!(!try_singular(true, false, 8, e, mv(1, 2)));
    assert!(!try_singular(false, true, 8, e, mv(1, 2)));
    assert!(!try_singular(false, false, 8, e, mv(1, 3)));
    assert!(!try_singular(false, false, 8, None, mv(1, 2)));
    assert!(!try_singular(false, false, 8, Some(entry(TTFlag::Upper, 50)), mv(1, 2)));
    assert!(!try_singular(false, false, 8, Some(TTEntry { mv: None, ..entry(TTFlag::Exact, 50) }), mv(1, 2)));
}

#[test]
fn singular_bound_and_extension() {
    assert_eq!(singular_beta(&SCALE, Score(50), 8), Score(34));
    assert_eq!(singular_beta(&SCALE, Score(-31990), 20), Score(-31998));
    // the move stands alone
    assert_eq!(extension(false, Score(0), Score(34), Score(50), Score(21)), 2);
    assert_eq!(extension(false, Score(0), Score(34), Score(50), Score(20)), 1);
    assert_eq!(extension(true, Score(0), Score(34), Score(50), Score(1000)), 1);
    // it does not
    assert_eq!(extension(false, Score(34), Score(34), Score(50), Score(50)), -1);
    assert_eq!(extension(false, Score(34), Score(34), Score(50), Score(51)), 0);
}

#[test]
fn scout_depths() {
    assert_eq!(scout_depth(6, 2, false), 4);
    assert_eq!(scout_depth(6, 2, true), 3);
    assert_eq!(scout_depth(6, 9, false), 1);
    assert_eq!(scout_depth(6, -3, false), 6);
    assert_eq!(scout_depth(0, 0, false), 0);
    assert_eq!(scout_depth(-1, 5, true), -2);
}

#[test]
fn corrections_need_a_telling_score() {
    let q = Some(mv(1, 2));
    let t = Some(Move { tactic: true, quiet: false, ..mv(1, 2) });
    assert!(corrects(false, false, q, TTFlag::Exact, Score(0), Score(0)));
    assert!(corrects(false, false, None, TTFlag::Upper, Score(-1), Score(0)));
    assert!(!corrects(false, false, None, TTFlag::Upper, Score(0), Score(0)));
    assert!(corrects(false, false, q, TTFlag::Lower, Score(1), Score(0)));
    assert!(!corrects(false, false, q, TTFlag::Lower, Score(0), Score(0)));
    assert!(!corrects(false, false, t, TTFlag::Exact, Score(0), Score(0)));
    assert!(!corrects(true, false, q, TTFlag::Exact, Score(0), Score(0)));
    assert!(!corrects(false, true, q, TTFlag::Exact, Score(0), Score(0)));
}
