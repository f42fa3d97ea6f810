use icarus_search::board::{Board, Color, Move, Piece, Position, TerminalState};
use icarus_search::id_loop::{best_move, IdLoop, IdNext};
use icarus_search::node::{NodeKind, Outcome, Params, Pick, Query, Reply};
use icarus_search::qsearch::QNode;
use icarus_search::run::{Request, Run};
use icarus_search::score::{Score, ScoreScale};
use icarus_search::thread::ThreadCtx;

const SCALE: ScoreScale = ScoreScale { infinite: 32000, max_mate: 31999, nomate: 31000 };

/// A game tree. Its inner nodes are in check and their moves tactical, so that nothing
/// is pruned; its leaves are quiet and offer no move.
struct Tree {
    children: Vec<Vec<usize>>,
    leaf: Vec<i16>,
    mated: Vec<bool>,
}

struct Dice(u64);

impl Dice {
    fn roll(&mut self, sides: u64) -> u64 {
        self.0 = self.0.wrapping_mul(6364136223846793005).wrapping_add(1442695040888963407);
        (self.0 >> 33) % sides
    }
}

impl Tree {
    fn grow(depth: u32, dice: &mut Dice) -> Tree {
        let mut tree = Tree { children: vec![], leaf: vec![], mated: vec![] };
        tree.node(depth, dice);
        tree
    }

    fn node(&mut self, depth: u32, dice: &mut Dice) -> usize {
        let id = self.children.len();
        self.children.push(vec![]);
        self.leaf.push(dice.roll(401) as i16 - 200);
        self.mated.push(depth == 0 && dice.roll(8) == 0);
        if depth > 0 {
            for _ in 0..1 + dice.roll(4) {
                let child = self.node(depth - 1, dice);
                self.children[id].push(child);
            }
        }
        id
    }

    fn negamax(&self, id: usize, ply: i16) -> i16 {
        if self.mated[id] {
            return -31999 + ply;
        }
        if self.children[id].is_empty() {
            return self.leaf[id];
        }
        self.children[id].iter().map(|&c| -self.negamax(c, ply + 1)).max().unwrap()
    }

    fn position(&self, id: usize) -> Position {
        Position {
            board: Board {
                stm: Color::White,
                pieces: [Some(Piece::Knight); 64],
                attacked: 0,
                hash: id as u64,
                pawn_hash: 0,
                minor_hash: 0,
                major_hash: 0,
                white_nonpawn_hash: 0,
                black_nonpawn_hash: 0,
                in_check: !self.children[id].is_empty(),
                terminal: if self.mated[id] { Some(TerminalState::Checkmate(Color::White)) } else { None },
            },
            prev: None,
            repetition: false,
        }
    }
}

/// The engine's side of a search.
struct Host<'a> {
    tree: &'a Tree,
    path: Vec<usize>,
    pickers: Vec<usize>,
    reduction: i16,
    stop_after: u64,
    stored: usize,
    /// What was on the board at one time or another.
    boards: Vec<Vec<usize>>,
}

fn mv(i: usize) -> Move {
    Move { from: i as u8, to: 9, code: 0, tactic: true, quiet: false }
}

impl Host<'_> {
    fn here(&self) -> usize {
        *self.path.last().unwrap()
    }

    fn answer(&mut self, query: Query, depth: usize) -> Reply {
        match query {
            Query::Stop { nodes } => Reply::Stop(nodes >= self.stop_after),
            Query::Probe { hash, .. } => {
                assert_eq!(hash, self.here() as u64);
                Reply::Entry(None)
            }
            Query::Evaluate => Reply::Eval(Score(self.tree.leaf[self.here()])),
            Query::OpenPicker(_) => {
                self.pickers.resize(depth, 0);
                self.pickers[depth - 1] = 0;
                Reply::Done
            }
            Query::NextMove => {
                let i = self.pickers[depth - 1];
                self.pickers[depth - 1] += 1;
                if i < self.tree.children[self.here()].len() {
                    Reply::Move(Some(Pick { mv: mv(i), past_good_tactics: false, no_more_quiets: false }))
                } else {
                    Reply::Move(None)
                }
            }
            Query::Reduction { .. } => Reply::Reduction(self.reduction),
            Query::MakeMove(m) => {
                let next = self.tree.children[self.here()][m.from as usize];
                self.path.push(next);
                self.boards.push(self.path.clone());
                Reply::Reached(self.tree.position(next))
            }
            Query::UnmakeMove => {
                self.path.pop();
                Reply::Done
            }
            Query::Store(_) => {
                self.stored += 1;
                Reply::Done
            }
            _ => panic!("not asked in check: {:?}", query),
        }
    }

    fn search(&mut self, params: Params, thread: &mut ThreadCtx) -> Score {
        let pos = self.tree.position(self.here());
        assert!(params.is_valid(&SCALE));
        let mut run = Run::new(params, pos);
        let mut reply = Reply::Done;
        loop {
            assert!(run.accepts(thread, &reply));
            match run.advance(thread, reply) {
                Request::Ask(query) => reply = self.answer(query, run.depth()),
                Request::Turn => reply = Reply::Done,
                Request::Finished(score) => {
                    assert_eq!(run.depth(), 0);
                    return score;
                }
                Request::Overrun => panic!("overrun"),
            }
        }
    }
}

fn host(tree: &Tree, reduction: i16) -> Host<'_> {
    Host { tree, path: vec![0], pickers: vec![], reduction, stop_after: u64::MAX, stored: 0, boards: vec![vec![0]] }
}

fn widest(depth: i16) -> Params {
    Params {
        kind: NodeKind { root: true, pv: true },
        depth,
        ply: 0,
        alpha: Score(-32000),
        beta: Score(32000),
        cutnode: false,
    }
}

#[test]
fn an_unpruned_search_finds_the_value_of_the_tree() {
    let mut dice = Dice(1);
    for round in 0..200u32 {
        let depth = 1 + round % 4;
        let tree = Tree::grow(depth, &mut dice);
        for reduction in [0, 1, 3] {
            let mut thread = ThreadCtx::new(0, SCALE);
            let mut h = host(&tree, reduction);
            let score = h.search(widest(depth as i16), &mut thread);
            assert_eq!(score.0, tree.negamax(0, 0));
            assert_eq!(h.path, vec![0]);
            assert!(!thread.abort_now);
        }
    }
}

#[test]
fn the_line_leads_to_the_value() {
    let mut dice = Dice(7);
    for _ in 0..50 {
        let tree = Tree::grow(3, &mut dice);
        let mut thread = ThreadCtx::new(0, SCALE);
        let mut h = host(&tree, 1);
        let score = h.search(widest(3), &mut thread);
        let first = thread.search_stack[0].pv[0];
        let child = tree.children[0][first.from as usize];
        assert_eq!(-tree.negamax(child, 1), score.0);
    }
}

#[test]
fn a_search_that_is_cut_short_restores_the_board_and_learns_nothing() {
    let mut dice = Dice(3);
    for round in 0..50 {
        let tree = Tree::grow(4, &mut dice);
        let mut thread = ThreadCtx::new(0, SCALE);
        let mut h = host(&tree, 1);
        h.stop_after = round % 7;
        h.search(widest(4), &mut thread);
        assert_eq!(h.path, vec![0]);
        if thread.abort_now {
            let stored = h.stored;
            let before: Vec<i16> =
                (0..4).map(|i| thread.history.score_tactic(&tree.position(0).board, mv(i))).collect();
            assert_eq!(h.search(widest(4), &mut thread), Score(0));
            let after: Vec<i16> =
                (0..4).map(|i| thread.history.score_tactic(&tree.position(0).board, mv(i))).collect();
            assert_eq!(h.stored, stored);
            assert_eq!(before, after);
            assert_eq!(h.path, vec![0]);
        }
    }
}

#[test]
fn iterations_settle_on_the_value() {
    let mut dice = Dice(11);
    for _ in 0..20 {
        let tree = Tree::grow(6, &mut dice);
        let mut thread = ThreadCtx::new(0, SCALE);
        thread.root_moves = (0..tree.children[0].len()).map(mv).collect();
        let mut h = host(&tree, 1);
        let (mut id, mut next) = IdLoop::begin(&mut thread);
        loop {
            next = match next {
                IdNext::Search(params) => {
                    let score = h.search(params, &mut thread);
                    id.searched(&mut thread, score)
                }
                IdNext::CheckTime(depth) => id.time_checked(&mut thread, depth >= 6, false),
                IdNext::Report { .. } => panic!("nobody asked for a report"),
                IdNext::Over => break,
            };
        }
        assert_eq!(id.depth, 6);
        assert_eq!(id.best_score.0, tree.negamax(0, 0));
        let best = tree.children[0][best_move(&thread).from as usize];
        assert_eq!(-tree.negamax(best, 1), id.best_score.0);
    }
}

#[test]
fn a_finished_run_stays_finished() {
    let tree = Tree { children: vec![vec![]], leaf: vec![5], mated: vec![true] };
    let mut thread = ThreadCtx::new(0, SCALE);
    let mut run = Run::new(widest(1), tree.position(0));
    assert_eq!(run.depth(), 0);
    assert!(matches!(run.advance(&mut thread, Reply::Done), Request::Finished(Score(-31999))));
    assert!(matches!(run.advance(&mut thread, Reply::Done), Request::Finished(Score(-31999))));
}

#[test]
fn runs_refuse_replies_out_of_place() {
    let tree = Tree::grow(2, &mut Dice(5));
    let mut thread = ThreadCtx::new(0, SCALE);
    let mut run = Run::new(widest(2), tree.position(0));
    assert!(run.accepts(&thread, &Reply::Child(Score(0))));
    assert!(matches!(run.advance(&mut thread, Reply::Done), Request::Ask(Query::Probe { .. })));
    assert_eq!(run.depth(), 1);
    assert!(!run.accepts(&thread, &Reply::Done));
    assert!(run.accepts(&thread, &Reply::Entry(None)));
}

#[test]
fn a_run_past_the_stack_is_an_overrun() {
    let tree = Tree { children: vec![vec![]], leaf: vec![5], mated: vec![false] };
    let mut thread = ThreadCtx::new(0, SCALE);
    let params = Params { kind: NodeKind { root: false, pv: true }, ply: 256, ..widest(1) };
    let mut run = Run::new(params, tree.position(0));
    assert!(matches!(run.advance(&mut thread, Reply::Done), Request::Ask(Query::Stop { .. })));
    assert!(matches!(run.advance(&mut thread, Reply::Stop(false)), Request::Overrun));
    assert!(matches!(run.advance(&mut thread, Reply::Done), Request::Overrun));
}

#[test]
fn the_line_was_played_from_the_root() {
    let mut dice = Dice(21);
    for round in 0..60 {
        let tree = Tree::grow(4, &mut dice);
        let mut thread = ThreadCtx::new(0, SCALE);
        let mut h = host(&tree, 1);
        if round % 3 == 0 {
            h.stop_after = round;
        }
        h.search(widest(4), &mut thread);
        let mut line = vec![0];
        for m in &thread.search_stack[0].pv {
            line.push(tree.children[*line.last().unwrap()][m.from as usize]);
        }
        assert!(h.boards.contains(&line));
        if !thread.abort_now {
            assert!(h.boards.len() > 1 && line.len() > 1);
        }
    }
}

#[test]
fn an_aborted_run_scores_zero() {
    let mut dice = Dice(31);
    let mut aborted = 0;
    for round in 0..40 {
        let tree = Tree::grow(4, &mut dice);
        let mut thread = ThreadCtx::new(0, SCALE);
        let mut h = host(&tree, 1);
        h.stop_after = round % 9;
        let score = h.search(widest(4), &mut thread);
        if thread.abort_now {
            aborted += 1;
            assert_eq!(score, Score(0));
        }
    }
    assert!(aborted > 0);
}

#[test]
fn marks_and_evaluations_after_a_run() {
    let tree = Tree::grow(4, &mut Dice(41));
    let mut thread = ThreadCtx::new(0, SCALE);
    thread.search_stack[2].singular = Some(mv(3));
    let mut h = host(&tree, 1);
    h.search(widest(4), &mut thread);
    for (i, e) in thread.search_stack.iter().enumerate() {
        assert_eq!(e.singular, if i == 2 { Some(mv(3)) } else { None });
    }
}

/// A quiescence search to its end, child by child.
fn quiesce(tree: &Tree, id: usize, params: Params, thread: &mut ThreadCtx) -> Score {
    let (mut node, mut out) = QNode::start(params, tree.position(id), thread);
    let mut next = 0;
    let mut child = id;
    loop {
        let reply = match out {
            Outcome::Done(score) => return score,
            Outcome::Quiesce(p, _) => Reply::Child(quiesce(tree, child, p, thread)),
            Outcome::Ask(Query::Stop { .. }) => Reply::Stop(false),
            Outcome::Ask(Query::Probe { .. }) => Reply::Entry(None),
            Outcome::Ask(Query::Evaluate) => Reply::Eval(Score(tree.leaf[id])),
            Outcome::Ask(Query::NextMove) => {
                next += 1;
                if next <= tree.children[id].len() {
                    Reply::Move(Some(Pick { mv: mv(next - 1), past_good_tactics: false, no_more_quiets: false }))
                } else {
                    Reply::Move(None)
                }
            }
            Outcome::Ask(Query::MakeMove(m)) => {
                child = tree.children[id][m.from as usize];
                Reply::Reached(tree.position(child))
            }
            _ => Reply::Done,
        };
        assert!(node.accepts(thread, &reply));
        out = node.step(thread, reply);
    }
}

#[test]
fn at_depth_zero_a_search_is_the_quiescence_search() {
    let mut dice = Dice(51);
    for round in 0..50 {
        let tree = Tree::grow(1 + round % 3, &mut dice);
        for kind in [NodeKind { root: true, pv: true }, NodeKind { root: false, pv: false }] {
            for depth in [0, -4] {
                let params =
                    Params { kind, alpha: Score(-20), beta: Score(30), cutnode: depth < 0, ..widest(depth) };
                let mut a = ThreadCtx::new(0, SCALE);
                let mut h = host(&tree, 1);
                let score = h.search(params, &mut a);
                let mut b = ThreadCtx::new(0, SCALE);
                assert_eq!(score, quiesce(&tree, 0, params, &mut b));
                assert_eq!((a.nodes, a.sel_depth, h.stored), (b.nodes, b.sel_depth, 0));
                for (x, y) in a.search_stack.iter().zip(&b.search_stack) {
                    assert_eq!(x.pv.as_slice(), y.pv.as_slice());
                    assert_eq!((x.static_eval, x.singular), (y.static_eval, y.singular));
                }
            }
        }
    }
}

#[test]
fn a_root_that_fails_low_has_a_line_too() {
    let mut dice = Dice(61);
    for round in 0..30 {
        let tree = Tree::grow(2, &mut dice);
        let depth = [2, 0][round % 2];
        let params = Params { alpha: Score(31999), beta: Score(32000), ..widest(depth) };
        let mut thread = ThreadCtx::new(0, SCALE);
        host(&tree, 1).search(params, &mut thread);
        assert_eq!(thread.search_stack[0].pv[0], mv(0));
    }
}
