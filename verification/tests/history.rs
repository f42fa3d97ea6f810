use icarus_search::board::{Board, Color, Move, Piece, Position};
use icarus_search::history::History;
use icarus_search::score::Score;

fn board(stm: Color) -> Board {
    let mut pieces = [None; 64];
    pieces[12] = Some(Piece::Pawn);
    pieces[6] = Some(Piece::Knight);
    pieces[3] = Some(Piece::Queen);
    Board {
        stm,
        pieces,
        attacked: 1 << 28,
        hash: 1,
        pawn_hash: 16384 + 7,
        minor_hash: 11,
        major_hash: 12,
        white_nonpawn_hash: 13,
        black_nonpawn_hash: 14,
        in_check: false,
        terminal: None,
    }
}

fn position(stm: Color, prev: Option<(Piece, Move)>) -> Position {
    Position { board: board(stm), prev, repetition: false }
}

fn quiet(from: u8, to: u8) -> Move {
    Move { from, to, code: 0, tactic: false, quiet: true }
}

fn tactic(from: u8, to: u8) -> Move {
    Move { from, to, code: 0, tactic: true, quiet: false }
}

fn learned(value: i16, amount: i32) -> i16 {
    let mut v = value;
    History::update_value(&mut v, amount);
    v
}

fn corrected(value: i16, amount: i32) -> i16 {
    let mut v = value;
    History::update_corr_val(&mut v, amount);
    v
}

#[test]
fn update_value_wears_off() {
    assert_eq!(learned(0, 128), 128);
    assert_eq!(learned(128, 128), 255);
    assert_eq!(learned(-128, -128), -255);
    assert_eq!(learned(-5, -100), -105);
    assert_eq!(learned(512, 2048), 2496);
    assert_eq!(learned(0, 0), 0);
}

#[test]
fn update_value_stays_within_its_bound() {
    assert_eq!(learned(16383, 2048), 16384);
    assert_eq!(learned(16384, 2048), 16384);
    assert_eq!(learned(-16384, -2048), -16384);
    assert_eq!(learned(-16384, 16384), 16384);
    assert_eq!(learned(0, 1_000_000), 16384);
    assert_eq!(learned(0, -1_000_000), -16384);
}

#[test]
fn update_value_takes_any_entry() {
    assert_eq!(learned(i16::MAX, 16384), 16384);
    assert_eq!(learned(i16::MIN, 16384), 16384);
    assert_eq!(learned(i16::MIN, -1), -32767);
}

#[test]
fn update_corr_val_wears_off() {
    assert_eq!(corrected(0, 40), 40);
    assert_eq!(corrected(0, 1000), 256);
    assert_eq!(corrected(0, -1000), -256);
    assert_eq!(corrected(256, 256), 448);
    assert_eq!(corrected(-300, -256), -481);
    assert_eq!(corrected(1024, 256), 1024);
    assert_eq!(corrected(-1024, -256), -1024);
}

#[test]
fn lessons_keep_the_order_of_entries() {
    let mut last = i16::MIN;
    for v in -16384i32..=16384 {
        let now = learned(v as i16, -777);
        assert!(now >= last);
        last = now;
    }
}

#[test]
fn blank_tables_score_nothing() {
    let h = History::new();
    let pos = position(Color::White, Some((Piece::Rook, quiet(1, 2))));
    assert_eq!(h.score_quiet(&pos, quiet(12, 28)), 0);
    assert_eq!(h.score_tactic(&pos.board, tactic(12, 28)), 0);
    assert_eq!(h.corr(&pos.board), 0);
}

#[test]
fn a_quiet_cutoff_teaches() {
    let mut h = History::new();
    let pos = position(Color::White, None);
    h.update(&pos, quiet(12, 28), &[quiet(6, 21)], &[tactic(3, 59)], 3);
    assert_eq!(h.score_quiet(&pos, quiet(12, 28)), 512);
    assert_eq!(h.score_quiet(&pos, quiet(6, 21)), -512);
    assert_eq!(h.score_tactic(&pos.board, tactic(3, 59)), -512);
    assert_eq!(h.score_quiet(&pos, quiet(3, 11)), 0);
}

#[test]
fn a_lesson_is_capped() {
    let mut h = History::new();
    let pos = position(Color::White, None);
    h.update(&pos, quiet(12, 28), &[], &[], 15);
    assert_eq!(h.score_quiet(&pos, quiet(12, 28)), 2048);
    h.update(&pos, quiet(12, 28), &[], &[], 100);
    assert_eq!(h.score_quiet(&pos, quiet(12, 28)), 2048 + 2048 - 256);
}

#[test]
fn a_cutoff_after_a_move_teaches_the_pair() {
    let mut h = History::new();
    let prev = Some((Piece::Rook, quiet(1, 2)));
    let pos = position(Color::White, prev);
    h.update(&pos, quiet(12, 28), &[quiet(6, 21)], &[], 3);
    assert_eq!(h.score_quiet(&pos, quiet(12, 28)), 1024);
    assert_eq!(h.score_quiet(&pos, quiet(6, 21)), -1024);
    let elsewhere = position(Color::White, Some((Piece::Rook, quiet(1, 3))));
    assert_eq!(h.score_quiet(&elsewhere, quiet(12, 28)), 512);
    assert_eq!(h.score_quiet(&position(Color::White, None), quiet(12, 28)), 512);
}

#[test]
fn a_tactical_cutoff_spares_the_quiet_moves() {
    let mut h = History::new();
    let pos = position(Color::White, None);
    h.update(&pos, tactic(12, 28), &[quiet(6, 21)], &[tactic(3, 59)], 3);
    assert_eq!(h.score_tactic(&pos.board, tactic(12, 28)), 512);
    assert_eq!(h.score_tactic(&pos.board, tactic(3, 59)), -512);
    assert_eq!(h.score_quiet(&pos, quiet(6, 21)), 0);
    assert_eq!(h.score_quiet(&pos, quiet(12, 28)), 0);
}

#[test]
fn a_cutoff_leaves_the_other_side_alone() {
    let mut h = History::new();
    let pos = position(Color::White, None);
    h.update(&pos, quiet(12, 28), &[quiet(6, 21)], &[tactic(3, 59)], 3);
    let other = position(Color::Black, None);
    assert_eq!(h.score_quiet(&other, quiet(12, 28)), 0);
    assert_eq!(h.score_quiet(&other, quiet(6, 21)), 0);
    assert_eq!(h.score_tactic(&other.board, tactic(3, 59)), 0);
}

#[test]
fn attacks_tell_quiet_entries_apart() {
    let mut h = History::new();
    let pos = position(Color::White, None);
    h.update(&pos, quiet(12, 28), &[], &[], 3);
    let mut calm = pos;
    calm.board.attacked = 0;
    assert_eq!(h.score_quiet(&calm, quiet(12, 28)), 0);
    calm.board.attacked = 1 << 12 | 1 << 28;
    assert_eq!(h.score_quiet(&calm, quiet(12, 28)), 0);
    calm.board.attacked = 1 << 28 | 1 << 40;
    assert_eq!(h.score_quiet(&calm, quiet(12, 28)), 512);
}

#[test]
fn corrections_follow_the_error() {
    let mut h = History::new();
    let b = board(Color::White);
    h.update_corr(&b, 4, Score(100), Score(20));
    assert_eq!(h.corr(&b), 12);
    h.update_corr(&b, 4, Score(20), Score(100));
    // each of the five entries goes from 40 to 40 - 40 - 1
    assert_eq!(h.corr(&b), 0);
    h.update_corr(&b, 1, Score(-32000), Score(32000));
    assert_eq!(h.corr(&b), -80);
}

#[test]
fn corrections_are_bounded() {
    let mut h = History::new();
    let b = board(Color::Black);
    for _ in 0..100 {
        h.update_corr(&b, 200, Score(32000), Score(-32000));
    }
    assert_eq!(h.corr(&b), 320);
}

#[test]
fn corrections_are_local() {
    let mut h = History::new();
    let b = board(Color::White);
    h.update_corr(&b, 8, Score(1000), Score(0));
    assert_eq!(h.corr(&b), 80);
    let mut pawns = b;
    pawns.pawn_hash = 8;
    assert_eq!(h.corr(&pawns), 64);
    // the hashes count modulo the size of the table
    pawns.pawn_hash = 7;
    assert_eq!(h.corr(&pawns), 80);
    assert_eq!(h.corr(&board(Color::Black)), 0);
}

#[test]
fn clear_forgets() {
    let mut h = History::new();
    let pos = position(Color::White, Some((Piece::Rook, quiet(1, 2))));
    h.update(&pos, quiet(12, 28), &[quiet(6, 21)], &[tactic(3, 59)], 3);
    h.update_corr(&pos.board, 8, Score(1000), Score(0));
    h.clear();
    assert_eq!(h.score_quiet(&pos, quiet(12, 28)), 0);
    assert_eq!(h.score_quiet(&pos, quiet(6, 21)), 0);
    assert_eq!(h.score_tactic(&pos.board, tactic(3, 59)), 0);
    assert_eq!(h.corr(&pos.board), 0);
}

#[test]
fn quiet_total_is_wider_than_an_entry() {
    let mut h = History::new();
    let pos = position(Color::White, Some((Piece::Rook, quiet(1, 2))));
    for _ in 0..200 {
        h.update(&pos, quiet(12, 28), &[], &[], 100);
    }
    assert_eq!(h.quiet_total(&pos, quiet(12, 28)), 32768);
}

#[test]
fn captures_of_other_pieces_are_other_entries() {
    let mut h = History::new();
    let mut pawn = position(Color::White, None);
    pawn.board.pieces[36] = Some(Piece::Pawn);
    let mut queen = pawn;
    queen.board.pieces[36] = Some(Piece::Queen);
    let mut empty = pawn;
    empty.board.pieces[36] = None;
    h.update(&pawn, tactic(6, 36), &[], &[], 3);
    assert_eq!(h.score_tactic(&pawn.board, tactic(6, 36)), 512);
    assert_eq!(h.score_tactic(&queen.board, tactic(6, 36)), 0);
    // a move to an empty square counts as the capture of a pawn
    assert_eq!(h.score_tactic(&empty.board, tactic(6, 36)), 512);
    h.update(&queen, tactic(6, 36), &[], &[], 1);
    assert_eq!(h.score_tactic(&queen.board, tactic(6, 36)), 256);
    assert_eq!(h.score_tactic(&pawn.board, tactic(6, 36)), 512);
}

#[test]
fn lessons_mirror() {
    for v in [-16384i16, -777, -1, 0, 1, 777, 16384] {
        for a in [-20000i32, -300, -1, 0, 1, 300, 20000] {
            assert_eq!(learned(-v, -a), -learned(v, a));
        }
    }
    for v in [-1024i16, -77, -1, 0, 1, 77, 1024] {
        for a in [-2000i32, -30, -1, 0, 1, 30, 2000] {
            assert_eq!(corrected(-v, -a), -corrected(v, a));
        }
    }
}

#[test]
fn entries_below_their_bound_move() {
    for v in -16384..16384i32 {
        assert!(learned(v as i16, 1) > v as i16);
    }
    for v in -1024..1024i32 {
        assert!(corrected(v as i16, 1) > v as i16);
    }
}

#[test]
fn untold_quiet_moves_are_left_alone() {
    let mut h = History::new();
    let pos = position(Color::White, None);
    h.update(&pos, quiet(12, 28), &[quiet(6, 21)], &[], 3);
    for from in 0..64 {
        for to in 0..64 {
            if (from, to) != (12, 28) && (from, to) != (6, 21) {
                assert_eq!(h.score_quiet(&pos, quiet(from, to)), 0);
            }
        }
    }
}
