use icarus_search::board::{Board, Color, Move, Piece, Position, TerminalState};
use icarus_search::limits::MAX_PLY;
use icarus_search::node::{
    NodeKind, NonPV, Outcome, Params, Pick, PickerSetup, Query, Reply, TTEntry, TTFlag,
};
use icarus_search::qsearch::{qsearch, QNode};
use icarus_search::score::{Score, ScoreScale};
use icarus_search::thread::ThreadCtx;

const SCALE: ScoreScale = ScoreScale { infinite: 32000, max_mate: 31999, nomate: 31000 };

const ON_PV: NodeKind = NodeKind { root: false, pv: true };
const OFF_PV: NodeKind = NodeKind { root: false, pv: false };

fn position() -> Position {
    Position {
        board: Board {
            stm: Color::White,
            pieces: [Some(Piece::Knight); 64],
            attacked: 0,
            hash: 77,
            pawn_hash: 1,
            minor_hash: 2,
            major_hash: 3,
            white_nonpawn_hash: 4,
            black_nonpawn_hash: 5,
            in_check: false,
            terminal: None,
        },
        prev: None,
        repetition: false,
    }
}

fn checked() -> Position {
    let mut pos = position();
    pos.board.in_check = true;
    pos
}

fn mv(from: u8, to: u8) -> Move {
    Move { from, to, code: 0, tactic: true, quiet: false }
}

fn pick(mv: Move) -> Reply {
    Reply::Move(Some(Pick { mv, past_good_tactics: false, no_more_quiets: true }))
}

fn window(kind: NodeKind, ply: u16, alpha: i16, beta: i16) -> Params {
    Params { kind, depth: 0, ply, alpha: Score(alpha), beta: Score(beta), cutnode: false }
}

fn entry(flag: TTFlag, score: i16, eval: i16) -> Option<TTEntry> {
    Some(TTEntry { mv: None, depth: 0, score: Score(score), eval: Score(eval), flag })
}

fn asked(out: Outcome) -> Query {
    match out {
        Outcome::Ask(q) => q,
        _ => panic!("no query: {:?}", out),
    }
}

fn score(out: Outcome) -> i16 {
    match out {
        Outcome::Done(s) => s.0,
        _ => panic!("not done: {:?}", out),
    }
}

struct Rig {
    node: QNode,
    thread: ThreadCtx,
    out: Outcome,
}

impl Rig {
    fn start(params: Params, pos: Position) -> Rig {
        let mut thread = ThreadCtx::new(0, SCALE);
        assert!(params.is_valid(&SCALE));
        let (node, out) = QNode::start(params, pos, &mut thread);
        Rig { node, thread, out }
    }

    fn tell(&mut self, reply: Reply) -> Outcome {
        assert!(self.node.accepts(&self.thread, &reply));
        self.out = self.node.step(&mut self.thread, reply);
        self.out
    }

    fn try_move(&mut self, mv: Move, child_score: i16) -> Params {
        assert_eq!(asked(self.tell(pick(mv))), Query::MakeMove(mv));
        let params = match self.tell(Reply::Reached(position())) {
            Outcome::Quiesce(p, _) => p,
            _ => panic!("no child"),
        };
        assert_eq!(asked(self.tell(Reply::Child(Score(child_score)))), Query::UnmakeMove);
        self.tell(Reply::Done);
        params
    }
}

fn evaluated(params: Params, eval: i16) -> Rig {
    let mut r = Rig::start(params, position());
    assert_eq!(asked(r.out), Query::Stop { nodes: 0 });
    assert_eq!(asked(r.tell(Reply::Stop(false))), Query::Probe { hash: 77, ply: params.ply });
    assert_eq!(asked(r.tell(Reply::Entry(None))), Query::Evaluate);
    r.tell(Reply::Eval(Score(eval)));
    r
}

#[test]
fn standing_pat() {
    assert_eq!(score(evaluated(window(ON_PV, 3, 0, 40), 50).out), 50);
    assert_eq!(score(evaluated(window(ON_PV, 3, 0, 40), 40).out), 40);
    for (eval, result) in [(20, 20), (0, 0), (-10, 0)] {
        let mut r = evaluated(window(ON_PV, 3, 0, 40), eval);
        assert_eq!(
            asked(r.out),
            Query::OpenPicker(PickerSetup {
                tt_move: None,
                skip_quiets: true,
                see_threshold: 0,
                quiescence: true,
            })
        );
        r.tell(Reply::Done);
        assert_eq!(score(r.tell(Reply::Move(None))), result);
        assert_eq!(r.thread.nodes, 1);
        assert_eq!(r.thread.sel_depth, 3);
    }
}

#[test]
fn standing_pat_is_corrected() {
    let mut r = Rig::start(window(ON_PV, 3, 0, 40), position());
    r.thread.history.update_corr(&position().board, 8, Score(1000), Score(0));
    r.tell(Reply::Stop(false));
    r.tell(Reply::Entry(None));
    assert_eq!(score(r.tell(Reply::Eval(Score(-30)))), 50);
}

#[test]
fn there_is_no_standing_pat_in_check() {
    let mut r = Rig::start(window(ON_PV, 3, 0, 40), checked());
    r.tell(Reply::Stop(false));
    match asked(r.tell(Reply::Entry(entry(TTFlag::Exact, 99, 99)))) {
        Query::OpenPicker(setup) => assert!(!setup.skip_quiets && setup.tt_move.is_none()),
        _ => panic!("no picker"),
    }
    r.tell(Reply::Done);
    for _ in 0..9 {
        r.try_move(mv(1, 2), 100);
    }
    assert_eq!(score(r.tell(Reply::Move(None))), 0);
}

#[test]
fn three_moves_are_enough() {
    let mut r = evaluated(window(ON_PV, 3, 0, 400), -50);
    r.tell(Reply::Done);
    for i in 0..3 {
        let p = r.try_move(mv(1, i), 5);
        assert_eq!(p, window(ON_PV, 4, -400, 0));
    }
    assert_eq!(score(r.tell(pick(mv(1, 9)))), 0);
    // unless all of them lose
    let mut r = evaluated(window(ON_PV, 3, 0, 400), -50);
    r.tell(Reply::Done);
    for i in 0..4 {
        r.try_move(mv(1, i), 31900);
    }
}

#[test]
fn better_moves_raise_the_floor() {
    let mut r = evaluated(window(ON_PV, 3, 0, 400), 10);
    r.tell(Reply::Done);
    let p = r.try_move(mv(1, 2), -30);
    assert_eq!(p, window(ON_PV, 4, -400, -10));
    assert_eq!(r.thread.search_stack[3].pv.as_slice(), &[mv(1, 2)]);
    let p = r.try_move(mv(3, 4), -20);
    assert_eq!(p, window(ON_PV, 4, -400, -30));
    assert_eq!(r.thread.search_stack[3].pv.as_slice(), &[mv(1, 2)]);
    assert_eq!(score(r.tell(Reply::Move(None))), 30);
}

#[test]
fn a_move_that_reaches_beta_ends_the_node() {
    let mut r = evaluated(window(OFF_PV, 3, 0, 1), -50);
    r.tell(Reply::Done);
    r.try_move(mv(1, 2), -30);
    assert_eq!(score(r.out), 30);
    assert_eq!(r.thread.search_stack[3].pv.len(), 0);
}

#[test]
fn stored_scores_of_any_depth_count_off_the_line() {
    let mut r = Rig::start(window(OFF_PV, 3, 0, 40), position());
    r.tell(Reply::Stop(false));
    assert_eq!(score(r.tell(Reply::Entry(entry(TTFlag::Exact, 7, -9)))), 7);
    // the bound is held against the floor
    let mut r = Rig::start(window(OFF_PV, 3, 0, 40), position());
    r.tell(Reply::Stop(false));
    assert_eq!(score(r.tell(Reply::Entry(entry(TTFlag::Upper, 7, 8)))), 7);
    let mut r = Rig::start(window(OFF_PV, 3, 0, 40), position());
    r.tell(Reply::Stop(false));
    assert!(matches!(asked(r.tell(Reply::Entry(entry(TTFlag::Upper, 7, 6)))), Query::OpenPicker(_)));
    let mut r = Rig::start(window(ON_PV, 3, 0, 40), position());
    r.tell(Reply::Stop(false));
    assert!(matches!(asked(r.tell(Reply::Entry(entry(TTFlag::Exact, 7, -9)))), Query::OpenPicker(_)));
}

#[test]
fn finished_games_and_repetitions_are_not_counted() {
    let mut pos = position();
    pos.board.terminal = Some(TerminalState::Checkmate(Color::White));
    let mut r = Rig::start(window(ON_PV, 5, 0, 40), pos);
    assert_eq!(score(r.tell(Reply::Stop(false))), -31994);
    assert_eq!((r.thread.nodes, r.thread.sel_depth), (0, 5));
    pos.board.terminal = Some(TerminalState::Draw);
    let mut r = Rig::start(window(OFF_PV, 5, 1, 40), pos);
    assert_eq!(score(r.tell(Reply::Stop(false))), 0);
    let mut pos = position();
    pos.repetition = true;
    let mut r = Rig::start(window(OFF_PV, 5, 1, 40), pos);
    assert_eq!(score(r.tell(Reply::Stop(false))), 0);
    assert_eq!(r.thread.nodes, 0);
}

#[test]
fn the_last_ply_is_scored_on_its_face() {
    for ply in [MAX_PLY, MAX_PLY + 1] {
        let mut r = Rig::start(window(OFF_PV, ply, 0, 40), position());
        assert_eq!(asked(r.tell(Reply::Stop(false))), Query::Evaluate);
        assert!(!r.node.accepts(&r.thread, &Reply::Eval(Score(32001))));
        assert_eq!(score(r.tell(Reply::Eval(Score(1234)))), 1234);
        assert_eq!(r.thread.nodes, 0);
    }
    let mut r = Rig::start(window(ON_PV, MAX_PLY + 1, 0, 40), position());
    assert!(matches!(r.tell(Reply::Stop(false)), Outcome::Overrun));
}

#[test]
fn quiescence_nodes_stop() {
    let mut r = Rig::start(window(ON_PV, 3, 0, 40), position());
    assert_eq!(score(r.tell(Reply::Stop(true))), 0);
    assert!(r.thread.abort_now);
    let (_, out) = QNode::start(window(ON_PV, 3, 0, 40), position(), &mut r.thread);
    assert_eq!(score(out), 0);
    let mut r = evaluated(window(ON_PV, 3, 0, 40), 10);
    r.tell(Reply::Done);
    r.tell(pick(mv(1, 2)));
    r.tell(Reply::Reached(position()));
    r.tell(Reply::Child(Score(-20)));
    r.thread.abort_now = true;
    assert_eq!(score(r.tell(Reply::Done)), 0);
}

#[test]
fn evaluations_off_the_scale_are_refused() {
    let mut r = Rig::start(window(ON_PV, 3, 0, 40), position());
    r.tell(Reply::Stop(false));
    assert!(!r.node.accepts(&r.thread, &Reply::Entry(entry(TTFlag::Exact, 0, 32001))));
    r.tell(Reply::Entry(None));
    assert!(!r.node.accepts(&r.thread, &Reply::Eval(Score(32001))));
    assert!(r.node.accepts(&r.thread, &Reply::Eval(Score(32000))));
    r.thread.history.update_corr(&position().board, 8, Score(1000), Score(0));
    assert!(!r.node.accepts(&r.thread, &Reply::Eval(Score(32000))));
}

#[test]
fn a_quiescence_search_begins() {
    let mut thread = ThreadCtx::new(0, SCALE);
    let (node, out) = qsearch::<NonPV>(&position(), 3, Score(0), Score(1), &mut thread);
    assert_eq!(node.params, window(OFF_PV, 3, 0, 1));
    assert_eq!(asked(out), Query::Stop { nodes: 0 });
}
