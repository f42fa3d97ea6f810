use icarus_search::board::{Board, Color, Move, Piece, Position, TerminalState};
use icarus_search::limits::MAX_PLY;
use icarus_search::node::{
    NodeKind, NonPV, Outcome, Params, Pick, PickerSetup, Query, Reply, Root, TTEntry, TTFlag, TTStore, PV,
};
use icarus_search::score::{Score, ScoreScale};
use icarus_search::search::{is_playable, search, SearchNode};
use icarus_search::thread::ThreadCtx;

const SCALE: ScoreScale = ScoreScale { infinite: 32000, max_mate: 31999, nomate: 31000 };

const ROOT: NodeKind = NodeKind { root: true, pv: true };
const ON_PV: NodeKind = NodeKind { root: false, pv: true };
const OFF_PV: NodeKind = NodeKind { root: false, pv: false };

fn position() -> Position {
    let mut pieces = [Some(Piece::Knight); 64];
    pieces[63] = None;
    Position {
        board: Board {
            stm: Color::White,
            pieces,
            attacked: 0,
            hash: 77,
            pawn_hash: 1,
            minor_hash: 2,
            major_hash: 3,
            white_nonpawn_hash: 4,
            black_nonpawn_hash: 5,
            in_check: false,
            terminal: None,
        },
        prev: None,
        repetition: false,
    }
}

fn quiet(from: u8, to: u8) -> Move {
    Move { from, to, code: 0, tactic: false, quiet: true }
}

fn tactic(from: u8, to: u8) -> Move {
    Move { from, to, code: 0, tactic: true, quiet: false }
}

fn pick(mv: Move) -> Reply {
    Reply::Move(Some(Pick { mv, past_good_tactics: false, no_more_quiets: false }))
}

fn window(kind: NodeKind, depth: i16, ply: u16, alpha: i16, beta: i16) -> Params {
    Params { kind, depth, ply, alpha: Score(alpha), beta: Score(beta), cutnode: false }
}

fn asked(out: Outcome) -> Query {
    match out {
        Outcome::Ask(q) => q,
        _ => panic!("no query: {:?}", out),
    }
}

fn child(out: Outcome) -> Params {
    match out {
        Outcome::Search(p, _) => p,
        _ => panic!("no search: {:?}", out),
    }
}

fn score(out: Outcome) -> i16 {
    match out {
        Outcome::Done(s) => s.0,
        _ => panic!("not done: {:?}", out),
    }
}

struct Rig {
    node: SearchNode,
    thread: ThreadCtx,
    out: Outcome,
}

impl Rig {
    fn start(params: Params, pos: Position) -> Rig {
        Rig::start_on(ThreadCtx::new(0, SCALE), params, pos)
    }

    fn start_on(thread: ThreadCtx, params: Params, pos: Position) -> Rig {
        let mut thread = thread;
        assert!(params.is_valid(&SCALE) && pos.is_valid());
        let (node, out) = SearchNode::start(params, pos, &mut thread);
        Rig { node, thread, out }
    }

    fn tell(&mut self, reply: Reply) -> Outcome {
        assert!(self.node.accepts(&SCALE, &reply));
        self.out = self.node.step(&mut self.thread, reply);
        self.out
    }

    fn refuses(&self, reply: Reply) -> bool {
        !self.node.accepts(&SCALE, &reply)
    }

    /// Up to the first question for a move.
    fn to_moves(params: Params, pos: Position, entry: Option<TTEntry>, eval: i16) -> Rig {
        let mut r = Rig::start(params, pos);
        if !params.kind.root {
            r.tell(Reply::Stop(false));
        }
        r.tell(Reply::Entry(entry));
        if entry.is_none() {
            r.tell(Reply::Eval(Score(eval)));
        }
        assert!(matches!(asked(r.out), Query::OpenPicker(_)));
        assert_eq!(asked(r.tell(Reply::Done)), Query::NextMove);
        r
    }

    /// A move that is made without further questions and searched once.
    fn try_move(&mut self, mv: Move, reduction: i16, child_score: i16) -> Params {
        self.tell(pick(mv));
        assert_eq!(asked(self.tell(Reply::Reduction(reduction))), Query::MakeMove(mv));
        let p = child(self.tell(Reply::Reached(position())));
        assert_eq!(asked(self.tell(Reply::Child(Score(child_score)))), Query::UnmakeMove);
        self.tell(Reply::Done);
        p
    }
}

#[test]
fn a_node_first_sees_whether_the_time_is_up() {
    let mut r = Rig::start(window(OFF_PV, 4, 3, 0, 1), position());
    assert_eq!(asked(r.out), Query::Stop { nodes: 0 });
    assert_eq!(score(r.tell(Reply::Stop(true))), 0);
    assert!(r.thread.abort_now);
    assert_eq!(r.thread.sel_depth, 0);
}

#[test]
fn the_root_does_not_look_at_the_clock() {
    let r = Rig::start(window(ROOT, 4, 0, -10, 10), position());
    assert_eq!(asked(r.out), Query::Probe { hash: 77, ply: 0 });
    assert_eq!(r.thread.nodes, 0);
}

#[test]
fn an_aborted_search_ends_at_once() {
    let mut thread = ThreadCtx::new(0, SCALE);
    thread.abort_now = true;
    let r = Rig::start_on(thread, window(ON_PV, 4, 3, -10, 10), position());
    assert_eq!(score(r.out), 0);
    assert_eq!(r.thread.nodes, 0);
}

#[test]
fn a_finished_game_has_its_score() {
    let mut pos = position();
    pos.board.terminal = Some(TerminalState::Checkmate(Color::Black));
    let mut r = Rig::start(window(OFF_PV, 4, 3, 0, 1), pos);
    assert_eq!(score(r.tell(Reply::Stop(false))), -31996);
    assert_eq!(r.thread.nodes, 1);
    assert_eq!(r.thread.sel_depth, 3);
    pos.board.terminal = Some(TerminalState::Draw);
    assert_eq!(score(Rig::start(window(ROOT, 4, 0, -5, 5), pos).out), 0);
}

#[test]
fn a_repetition_is_a_draw_but_at_the_root() {
    let mut pos = position();
    pos.repetition = true;
    let mut r = Rig::start(window(ON_PV, 4, 3, -5, 5), pos);
    assert_eq!(score(r.tell(Reply::Stop(false))), 0);
    assert_eq!(r.thread.nodes, 1);
    assert!(matches!(asked(Rig::start(window(ROOT, 4, 0, -5, 5), pos).out), Query::Probe { .. }));
}

#[test]
fn the_quiescence_search_takes_over_at_depth_zero() {
    let p = Params { cutnode: true, ..window(OFF_PV, -3, 3, 0, 1) };
    let mut r = Rig::start(p, position());
    match r.tell(Reply::Stop(false)) {
        Outcome::Quiesce(q, pos) => {
            assert_eq!(q, window(OFF_PV, 0, 3, 0, 1));
            assert_eq!(pos.board.hash, 77);
        }
        _ => panic!("no quiescence search"),
    }
    assert_eq!(r.thread.nodes, 0);
    assert_eq!(score(r.tell(Reply::Child(Score(-7)))), -7);
}

#[test]
fn lines_end_with_the_search_stack() {
    let past = MAX_PLY + 1;
    let mut r = Rig::start(window(ON_PV, 4, past, -5, 5), position());
    assert!(matches!(r.tell(Reply::Stop(false)), Outcome::Overrun));
    let mut r = Rig::start(window(OFF_PV, 4, past, 0, 1), position());
    assert!(matches!(r.tell(Reply::Stop(false)), Outcome::Overrun));
    let mut r = Rig::start(window(OFF_PV, 0, past, 0, 1), position());
    assert!(matches!(r.tell(Reply::Stop(false)), Outcome::Quiesce(..)));
}

fn entry(flag: TTFlag, depth: u8, score: i16) -> TTEntry {
    TTEntry { mv: Some(quiet(1, 2)), depth, score: Score(score), eval: Score(0), flag }
}

#[test]
fn a_stored_score_ends_a_node_off_the_line() {
    let mut r = Rig::start(window(OFF_PV, 4, 3, 0, 1), position());
    r.tell(Reply::Stop(false));
    assert_eq!(score(r.tell(Reply::Entry(Some(entry(TTFlag::Exact, 4, 13))))), 13);
}

#[test]
fn a_stored_score_of_less_depth_does_not() {
    let p = window(OFF_PV, 4, 3, 0, 1);
    Rig::to_moves(p, position(), Some(entry(TTFlag::Exact, 3, 13)), 0);
    // neither does one on the line
    Rig::to_moves(window(ON_PV, 4, 3, 0, 9), position(), Some(entry(TTFlag::Exact, 9, 13)), 0);
}

#[test]
fn the_picker_gets_the_stored_move() {
    let mut r = Rig::start(window(ON_PV, 4, 3, 0, 9), position());
    r.tell(Reply::Stop(false));
    assert_eq!(
        asked(r.tell(Reply::Entry(Some(entry(TTFlag::Upper, 9, 13))))),
        Query::OpenPicker(PickerSetup {
            tt_move: Some(quiet(1, 2)),
            skip_quiets: false,
            see_threshold: 0,
            quiescence: false,
        })
    );
}

#[test]
fn a_node_that_is_good_enough_is_not_searched() {
    let mut r = Rig::start(window(OFF_PV, 3, 3, 99, 100), position());
    r.tell(Reply::Stop(false));
    assert_eq!(asked(r.tell(Reply::Entry(None))), Query::Evaluate);
    assert_eq!(score(r.tell(Reply::Eval(Score(260)))), 260);
    assert_eq!(r.thread.search_stack[3].static_eval, Score(260));
    let r = Rig::to_moves(window(OFF_PV, 3, 3, 99, 100), position(), None, 259);
    assert_eq!(r.thread.search_stack[3].static_eval, Score(259));
}

fn passing() -> Rig {
    let mut pos = position();
    pos.prev = Some((Piece::Rook, quiet(8, 9)));
    let mut r = Rig::start(window(OFF_PV, 6, 3, 99, 100), pos);
    r.tell(Reply::Stop(false));
    r.tell(Reply::Entry(None));
    assert_eq!(asked(r.tell(Reply::Eval(Score(150)))), Query::MakeNull);
    let p = child(r.tell(Reply::Reached(position())));
    assert_eq!(p, Params { cutnode: true, ..window(OFF_PV, 1, 4, -100, -99) });
    r
}

#[test]
fn a_pass_that_holds_beta_ends_the_node() {
    let mut r = passing();
    assert_eq!(asked(r.tell(Reply::Child(Score(-120)))), Query::UnmakeNull);
    assert_eq!(score(r.tell(Reply::Done)), 100);
    let mut r = passing();
    r.tell(Reply::Child(Score(-99)));
    assert!(matches!(asked(r.tell(Reply::Done)), Query::OpenPicker(_)));
}

#[test]
fn a_pass_that_is_cut_short_counts_for_nothing() {
    let mut r = passing();
    r.tell(Reply::Child(Score(-120)));
    r.thread.abort_now = true;
    assert_eq!(score(r.tell(Reply::Done)), 0);
}

#[test]
fn nothing_is_passed_after_a_pass() {
    Rig::to_moves(window(OFF_PV, 6, 3, 99, 100), position(), None, 150);
}

#[test]
fn later_moves_are_scouted_first() {
    let mut r = Rig::to_moves(window(ON_PV, 4, 3, -50, 50), position(), None, 10);
    let (m1, m2, m3) = (quiet(1, 2), quiet(3, 4), quiet(5, 6));

    r.tell(pick(m1));
    assert_eq!(asked(r.out), Query::Reduction { tactic: false, depth: 4, moves_seen: 0 });
    r.tell(Reply::Reduction(0));
    let p = child(r.tell(Reply::Reached(position())));
    assert_eq!(p, window(ON_PV, 3, 4, -50, 50));
    r.tell(Reply::Child(Score(-20)));
    assert_eq!(asked(r.tell(Reply::Done)), Query::NextMove);
    assert_eq!(r.thread.search_stack[3].pv.as_slice(), &[m1]);

    r.tell(pick(m2));
    assert_eq!(asked(r.out), Query::Reduction { tactic: false, depth: 4, moves_seen: 1 });
    assert_eq!(asked(r.tell(Reply::Reduction(2))), Query::MakeMove(m2));
    let p = child(r.tell(Reply::Reached(position())));
    assert_eq!(p, Params { cutnode: true, ..window(OFF_PV, 1, 4, -21, -20) });
    let p = child(r.tell(Reply::Child(Score(-30))));
    assert_eq!(p, Params { cutnode: true, ..window(OFF_PV, 3, 4, -21, -20) });
    let p = child(r.tell(Reply::Child(Score(-30))));
    assert_eq!(p, window(ON_PV, 3, 4, -50, -20));
    r.tell(Reply::Child(Score(-35)));
    r.tell(Reply::Done);
    assert_eq!(r.thread.search_stack[3].pv.as_slice(), &[m2]);

    let p = r.try_move(m3, 0, 40);
    assert_eq!(p, Params { cutnode: true, ..window(OFF_PV, 3, 4, -36, -35) });

    assert_eq!(
        asked(r.tell(Reply::Move(None))),
        Query::Store(TTStore {
            hash: 77,
            depth: 4,
            ply: 3,
            eval: Score(10),
            score: Score(35),
            mv: Some(m2),
            flag: TTFlag::Exact,
            pv: true,
        })
    );
    assert_eq!(r.thread.history.corr(&position().board), 0);
    assert_eq!(score(r.tell(Reply::Done)), 35);
    assert_eq!(r.thread.history.corr(&position().board), 3);
}

#[test]
fn a_line_goes_on_with_the_line_of_the_child() {
    let mut r = Rig::to_moves(window(ON_PV, 4, 3, -50, 50), position(), None, 10);
    icarus_search::thread::update_pv(&mut r.thread, 4, quiet(9, 10));
    r.try_move(quiet(1, 2), 0, -20);
    assert_eq!(r.thread.search_stack[3].pv.as_slice(), &[quiet(1, 2), quiet(9, 10)]);
    // a node forgets the line that another one left at its ply
    let mut r = Rig::start_on(r.thread, window(ON_PV, 4, 3, -50, 50), position());
    r.tell(Reply::Stop(false));
    assert_eq!(r.thread.search_stack[3].pv.len(), 0);
    assert_eq!(r.thread.search_stack[4].pv.len(), 1);
}

#[test]
fn nodes_off_the_line_leave_lines_alone() {
    let mut r = Rig::to_moves(window(OFF_PV, 4, 3, 0, 9), position(), None, 0);
    r.try_move(quiet(1, 2), 0, -5);
    assert_eq!(r.thread.search_stack[3].pv.len(), 0);
}

#[test]
fn a_cutoff_teaches_the_tables() {
    let mut pos = position();
    pos.board.in_check = true;
    let mut r = Rig::to_moves(window(OFF_PV, 4, 3, 0, 1), pos, None, 0);
    let (m1, t1, m2) = (quiet(1, 2), tactic(3, 4), quiet(5, 6));
    let p = r.try_move(m1, 0, 5);
    assert_eq!(p, window(OFF_PV, 3, 4, -1, 0));
    r.try_move(t1, 0, 6);
    r.tell(pick(m2));
    assert_eq!(asked(r.tell(Reply::Reduction(1))), Query::See { mv: m2, margin: -300 });
    assert_eq!(asked(r.tell(Reply::See(true))), Query::MakeMove(m2));
    let p = child(r.tell(Reply::Reached(position())));
    assert_eq!(p, Params { cutnode: true, ..window(OFF_PV, 2, 4, -1, 0) });
    let p = child(r.tell(Reply::Child(Score(-7))));
    assert_eq!(p, Params { cutnode: true, ..window(OFF_PV, 3, 4, -1, 0) });
    r.tell(Reply::Child(Score(-7)));
    match asked(r.tell(Reply::Done)) {
        Query::Store(s) => {
            assert_eq!(s.flag, TTFlag::Lower);
            assert_eq!(s.score, Score(7));
            assert_eq!(s.mv, Some(m2));
        }
        _ => panic!("nothing stored"),
    }
    assert_eq!(r.thread.history.score_quiet(&pos, m2), 640);
    assert_eq!(r.thread.history.score_quiet(&pos, m1), -640);
    assert_eq!(r.thread.history.score_tactic(&pos.board, t1), -640);
    assert_eq!(score(r.tell(Reply::Done)), 7);
    // in check the evaluation is not corrected
    assert_eq!(r.thread.history.corr(&pos.board), 0);
}

#[test]
fn many_tried_moves_are_all_remembered() {
    let mut pos = position();
    pos.board.in_check = true;
    let mut r = Rig::to_moves(window(ON_PV, 20, 3, 0, 9), pos, None, 0);
    for from in 0..60u8 {
        r.try_move(quiet(from, 62), 0, 5);
    }
    for from in 0..30u8 {
        r.try_move(quiet(from, 61), 0, 5);
    }
    r.try_move(quiet(60, 61), 0, 5);
    r.try_move(quiet(61, 62), 0, 5);
    r.tell(pick(tactic(62, 61)));
    r.tell(Reply::Reduction(0));
    r.tell(Reply::Reached(position()));
    r.tell(Reply::Child(Score(-20)));
    r.tell(Reply::Child(Score(-20)));
    r.tell(Reply::Done);
    // a tactical cutoff spares the quiet moves
    assert_eq!(r.thread.history.score_tactic(&pos.board, tactic(62, 61)), 2048);
    assert_eq!(r.thread.history.score_quiet(&pos, quiet(0, 62)), 0);

    let mut r = Rig::to_moves(window(ON_PV, 20, 3, 0, 9), pos, None, 0);
    for from in 0..60u8 {
        r.try_move(quiet(from, 62), 0, 5);
    }
    for from in 0..30u8 {
        r.try_move(quiet(from, 61), 0, 5);
    }
    r.tell(pick(quiet(62, 61)));
    r.tell(Reply::Reduction(0));
    r.tell(Reply::Reached(position()));
    r.tell(Reply::Child(Score(-20)));
    r.tell(Reply::Child(Score(-20)));
    r.tell(Reply::Done);
    assert_eq!(r.thread.history.score_quiet(&pos, quiet(62, 61)), 2048);
    for from in 0..60u8 {
        assert_eq!(r.thread.history.score_quiet(&pos, quiet(from, 62)), -2048);
    }
    for from in 0..30u8 {
        assert_eq!(r.thread.history.score_quiet(&pos, quiet(from, 61)), -2048);
    }
}

#[test]
fn an_upper_bound_is_stored_as_such() {
    let mut r = Rig::to_moves(window(OFF_PV, 4, 3, 0, 1), position(), None, 0);
    r.try_move(quiet(1, 2), 0, 5);
    match asked(r.tell(Reply::Move(None))) {
        Query::Store(s) => {
            assert_eq!((s.flag, s.score, s.mv), (TTFlag::Upper, Score(-5), None));
        }
        _ => panic!("nothing stored"),
    }
    // the score is below the evaluation, so it tells something of it
    assert_eq!(score(r.tell(Reply::Done)), -5);
    assert_eq!(r.thread.history.corr(&position().board), 0);
    let mut r = Rig::to_moves(window(OFF_PV, 8, 3, 0, 1), position(), None, 0);
    r.try_move(quiet(1, 2), 0, 50);
    r.tell(Reply::Move(None));
    assert_eq!(score(r.tell(Reply::Done)), -50);
    assert_eq!(r.thread.history.corr(&position().board), -15);
}

#[test]
fn bad_captures_are_pruned() {
    let mut r = Rig::to_moves(window(OFF_PV, 4, 3, 0, 9), position(), None, 0);
    r.try_move(quiet(1, 2), 0, 5);
    let late = |mv| Reply::Move(Some(Pick { mv, past_good_tactics: true, no_more_quiets: false }));
    r.tell(late(tactic(3, 4)));
    assert_eq!(asked(r.tell(Reply::Reduction(0))), Query::See { mv: tactic(3, 4), margin: -240 });
    assert_eq!(asked(r.tell(Reply::See(false))), Query::NextMove);
    // the first move is never pruned: all is lost so far
    let mut r = Rig::to_moves(window(OFF_PV, 4, 3, 0, 9), position(), None, 0);
    r.tell(late(tactic(3, 4)));
    assert_eq!(asked(r.tell(Reply::Reduction(0))), Query::MakeMove(tactic(3, 4)));
}

#[test]
fn quiet_moves_are_given_up() {
    // the evaluation lies far below the window
    let mut r = Rig::to_moves(window(OFF_PV, 1, 3, 500, 501), position(), None, 0);
    r.try_move(tactic(1, 2), 0, 5);
    let m = quiet(3, 4);
    r.tell(pick(m));
    assert_eq!(asked(r.tell(Reply::Reduction(0))), Query::SkipQuiets);
    assert_eq!(asked(r.tell(Reply::Done)), Query::See { mv: m, margin: -100 });
    assert_eq!(asked(r.tell(Reply::See(true))), Query::MakeMove(m));
    // once the picker has given them up, it is not asked again
    let mut r = Rig::to_moves(window(OFF_PV, 1, 3, 500, 501), position(), None, 0);
    r.try_move(tactic(1, 2), 0, 5);
    r.tell(Reply::Move(Some(Pick { mv: m, past_good_tactics: true, no_more_quiets: true })));
    assert_eq!(asked(r.tell(Reply::Reduction(0))), Query::See { mv: m, margin: -100 });
}

#[test]
fn late_quiet_moves_are_given_up_on_the_line_too() {
    let mut r = Rig::to_moves(window(ON_PV, 1, 3, 0, 9), position(), None, 0);
    for to in 0..5u8 {
        r.try_move(tactic(1, to), 0, 5);
    }
    r.tell(pick(quiet(3, 4)));
    assert_eq!(asked(r.tell(Reply::Reduction(0))), Query::SkipQuiets);
    assert_eq!(asked(r.tell(Reply::Done)), Query::MakeMove(quiet(3, 4)));
}

fn singular() -> (Rig, Params) {
    let e = entry(TTFlag::Lower, 6, 40);
    let mut r = Rig::to_moves(window(OFF_PV, 8, 3, 10, 11), position(), Some(e), 0);
    r.tell(pick(quiet(1, 2)));
    let p = child(r.tell(Reply::Reduction(0)));
    (r, p)
}

#[test]
fn the_only_good_move_is_extended() {
    let (mut r, p) = singular();
    assert_eq!(p, Params { cutnode: true, ..window(OFF_PV, 3, 3, 23, 24) });
    assert_eq!(r.thread.search_stack[3].singular, Some(quiet(1, 2)));
    assert_eq!(asked(r.tell(Reply::Child(Score(23)))), Query::MakeMove(quiet(1, 2)));
    assert_eq!(r.thread.search_stack[3].singular, None);
    assert_eq!(child(r.tell(Reply::Reached(position()))).depth, 8);

    let (mut r, _) = singular();
    r.tell(Reply::Child(Score(-30)));
    assert_eq!(child(r.tell(Reply::Reached(position()))).depth, 9);

    let (mut r, _) = singular();
    r.tell(Reply::Child(Score(24)));
    assert_eq!(child(r.tell(Reply::Reached(position()))).depth, 6);
}

#[test]
fn a_singular_search_leaves_its_move_out() {
    let (r, p) = singular();
    let mut inner = Rig::start_on(r.thread, p, position());
    inner.tell(Reply::Stop(false));
    // no cutoff, however deep the stored score
    inner.tell(Reply::Entry(Some(entry(TTFlag::Exact, 99, 40))));
    inner.tell(Reply::Done);
    assert_eq!(asked(inner.tell(pick(quiet(1, 2)))), Query::NextMove);
    inner.try_move(quiet(3, 4), 0, 9);
    // and nothing is stored
    assert_eq!(score(inner.tell(Reply::Move(None))), -9);
    assert_eq!(inner.thread.search_stack[3].singular, Some(quiet(1, 2)));
}

#[test]
fn the_root_keeps_a_line_and_prunes_nothing() {
    let mut r = Rig::to_moves(window(ROOT, 1, 0, 100, 200), position(), None, 0);
    r.try_move(quiet(1, 2), 0, 0);
    assert_eq!(r.thread.search_stack[0].pv.as_slice(), &[quiet(1, 2)]);
    for to in 0..30u8 {
        r.try_move(quiet(3, to), 0, 0);
    }
    assert_eq!(r.thread.search_stack[0].pv.as_slice(), &[quiet(1, 2)]);
}

#[test]
fn a_move_that_is_cut_short_counts_for_nothing() {
    let mut r = Rig::to_moves(window(ON_PV, 4, 3, -50, 50), position(), None, 10);
    r.tell(pick(quiet(1, 2)));
    r.tell(Reply::Reduction(0));
    r.tell(Reply::Reached(position()));
    r.tell(Reply::Child(Score(-20)));
    r.thread.abort_now = true;
    assert_eq!(score(r.tell(Reply::Done)), 0);
    assert_eq!(r.thread.search_stack[3].pv.len(), 0);
}

#[test]
fn replies_out_of_place_are_refused() {
    let mut r = Rig::start(window(ON_PV, 4, 3, -50, 50), position());
    assert!(r.refuses(Reply::Done));
    assert!(r.refuses(Reply::Child(Score(0))));
    r.tell(Reply::Stop(false));
    assert!(r.refuses(Reply::Entry(Some(entry(TTFlag::Exact, 9, 32001)))));
    r.tell(Reply::Entry(None));
    r.tell(Reply::Eval(Score(i16::MAX)));
    r.tell(Reply::Done);
    assert!(r.refuses(pick(quiet(63, 1))));
    assert!(r.refuses(pick(quiet(1, 64))));
    r.tell(pick(quiet(1, 2)));
    r.tell(Reply::Reduction(0));
    let mut far = position();
    far.prev = Some((Piece::Pawn, quiet(1, 64)));
    assert!(r.refuses(Reply::Reached(far)));
    r.tell(Reply::Reached(position()));
    assert!(r.refuses(Reply::Child(Score(i16::MIN))));
    assert!(!r.refuses(Reply::Child(Score(-32000))));
}

#[test]
fn playable_moves_start_from_a_piece() {
    let b = position().board;
    assert!(is_playable(&b, quiet(1, 63)));
    assert!(!is_playable(&b, quiet(63, 1)));
    assert!(!is_playable(&b, quiet(64, 1)));
    assert!(!is_playable(&b, quiet(1, 64)));
}

#[test]
fn kinds_of_nodes() {
    let mut thread = ThreadCtx::new(0, SCALE);
    let (node, out) = search::<Root>(&position(), 4, 0, Score(-9), Score(9), false, &mut thread);
    assert_eq!(node.core.params.kind, ROOT);
    assert!(matches!(asked(out), Query::Probe { .. }));
    let (node, out) = search::<PV>(&position(), 4, 1, Score(-9), Score(9), false, &mut thread);
    assert_eq!(node.core.params.kind, ON_PV);
    assert!(matches!(asked(out), Query::Stop { .. }));
    let (node, _) = search::<NonPV>(&position(), 4, 1, Score(-9), Score(9), true, &mut thread);
    assert_eq!(node.core.params, Params { cutnode: true, ..window(OFF_PV, 4, 1, -9, 9) });
    assert_eq!(NodeKind::of::<Root>().next(), NodeKind::of::<PV>());
    assert_eq!(NodeKind::of::<PV>().next(), NodeKind::of::<PV>());
    assert_eq!(NodeKind::of::<NonPV>().next(), NodeKind::of::<NonPV>());
}

#[test]
fn parameters_are_tested() {
    assert!(window(ROOT, 4, 0, -32000, 32000).is_valid(&SCALE));
    assert!(!window(ROOT, 4, 0, 32000, 32000).is_valid(&SCALE));
    assert!(!window(ROOT, 4, 0, -32000, -32000).is_valid(&SCALE));
    assert!(!window(OFF_PV, 4, 257, 0, 1).is_valid(&SCALE));
    assert!(!window(OFF_PV, 32001, 0, 0, 1).is_valid(&SCALE));
    assert!(!window(NodeKind { root: true, pv: false }, 4, 0, 0, 1).is_valid(&SCALE));
}
