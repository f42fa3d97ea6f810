use icarus_search::board::{Board, Color, Move, Piece, Position};
use icarus_search::id_loop::IdLoop;
use icarus_search::report::{best_move_line, info_line, join_words, print_info, Info};
use icarus_search::score::{Score, ScoreScale};
use icarus_search::searcher::{
    close, needs_moves, receive, Closing, Effect, GlobalCtx, SearchLimit, SearchParams, Searcher, ThreadCmd,
    WorkerNext,
};
use icarus_search::thread::{update_pv, ThreadCtx};

const SCALE: ScoreScale = ScoreScale { infinite: 32000, max_mate: 31999, nomate: 31000 };

fn mv(from: u8, to: u8) -> Move {
    Move { from, to, code: 0, tactic: false, quiet: true }
}

fn position(hash: u64) -> Position {
    Position {
        board: Board {
            stm: Color::White,
            pieces: [Some(Piece::Pawn); 64],
            attacked: 0,
            hash,
            pawn_hash: 0,
            minor_hash: 0,
            major_hash: 0,
            white_nonpawn_hash: 0,
            black_nonpawn_hash: 0,
            in_check: false,
            terminal: None,
        },
        prev: None,
        repetition: false,
    }
}

fn params_of(effects: Vec<Effect>) -> SearchParams {
    let mut effects = effects;
    assert_eq!(effects.len(), 2);
    assert!(matches!(effects[0], Effect::InitClock(Color::White, _)));
    match effects.pop() {
        Some(Effect::Send(ThreadCmd::Search(params))) => *params,
        _ => panic!("no search was sent"),
    }
}

#[test]
fn a_search_counts_as_running_at_once() {
    let mut s = Searcher::default(16);
    assert!(!s.is_running());
    assert_eq!(s.wait(), None);
    s.global_ctx.nodes = 77;
    let p = params_of(s.search(position(3), vec![], true, false));
    assert!(s.is_running());
    assert_eq!(s.wait(), Some(1));
    assert_eq!(s.global_ctx, GlobalCtx { id: 0, nodes: 0, num_searching: 1, ttable_mb: 16 });
    assert_eq!(p.pos.board.hash, 3);
    assert!(p.chess960 && !p.print_info && p.root_moves.is_none());
}

#[test]
fn the_first_limit_with_moves_counts() {
    let mut s = Searcher::default(16);
    let limits = vec![
        SearchLimit::Clock(0),
        SearchLimit::SearchMoves(vec![mv(1, 2)]),
        SearchLimit::Clock(1),
        SearchLimit::SearchMoves(vec![mv(3, 4), mv(5, 6)]),
    ];
    let effects = s.search(position(3), limits, false, true);
    match &effects[0] {
        Effect::InitClock(_, all) => {
            assert_eq!(all.len(), 4);
            assert!(matches!(all[0], SearchLimit::Clock(0)));
            assert!(matches!(&all[1], SearchLimit::SearchMoves(m) if m == &vec![mv(1, 2)]));
            assert!(matches!(all[2], SearchLimit::Clock(1)));
            assert!(matches!(&all[3], SearchLimit::SearchMoves(m) if m == &vec![mv(3, 4), mv(5, 6)]));
        }
        _ => panic!("the clock is not started"),
    }
    let p = params_of(effects);
    assert_eq!(p.root_moves, Some(vec![mv(1, 2)]));
    assert!(!p.chess960 && p.print_info);
}

#[test]
fn the_count_goes_back_to_zero_with_the_last_thread() {
    let mut s = Searcher::default(16);
    s.search(position(3), vec![], false, false);
    s.global_ctx.join();
    s.global_ctx.join();
    s.global_ctx.join();
    assert_eq!(s.wait(), Some(4));
    assert!(!s.global_ctx.leave());
    assert!(!s.global_ctx.leave());
    assert!(s.is_running());
    assert!(s.global_ctx.leave());
    // the search is over when the last thread has cleared the count
    assert!(s.is_running());
    assert_eq!(s.wait(), Some(1));
    s.global_ctx.clear();
    assert!(!s.is_running());
    assert_eq!(s.wait(), None);
}

#[test]
fn newgame_clears_the_table() {
    let mut s = Searcher::default(16);
    let e = s.newgame();
    assert_eq!(e.len(), 2);
    assert!(matches!(e[0], Effect::ClearTable));
    assert!(matches!(e[1], Effect::Send(ThreadCmd::NewGame)));
    assert!(!s.is_running());
}

#[test]
fn quit_and_stop() {
    let mut s = Searcher::default(16);
    s.search(position(3), vec![], false, false);
    let e = s.stop();
    assert_eq!(e.len(), 1);
    assert!(matches!(e[0], Effect::RaiseStop));
    let e = s.quit();
    assert_eq!(e.len(), 3);
    assert!(matches!(e[0], Effect::RaiseStop));
    assert!(matches!(e[1], Effect::Send(ThreadCmd::Quit)));
    assert!(matches!(e[2], Effect::Join));
    assert!(!s.worker);
}

#[test]
fn resize_replaces_the_context() {
    let mut s = Searcher::default(16);
    s.global_ctx.nodes = 99;
    let e = s.resize_ttable(64);
    let new = GlobalCtx { id: 1, nodes: 0, num_searching: 0, ttable_mb: 64 };
    assert_eq!(s.global_ctx, new);
    assert_eq!(e.len(), 2);
    assert!(matches!(e[0], Effect::ReplaceContext(ctx) if ctx == new));
    assert!(matches!(e[1], Effect::Send(ThreadCmd::SetGlobal(1))));
}

#[test]
fn a_worker_prepares_for_a_search() {
    let mut thread = ThreadCtx::new(0, SCALE);
    let mut global = GlobalCtx { id: 0, nodes: 0, num_searching: 1, ttable_mb: 16 };
    thread.nodes = 5;
    thread.abort_now = true;
    update_pv(&mut thread, 3, mv(1, 2));
    thread.search_stack[4].static_eval = Score(8);
    thread.search_stack[5].singular = Some(mv(1, 2));
    let cmd = ThreadCmd::Search(Box::new(SearchParams {
        pos: position(9),
        root_moves: None,
        chess960: true,
        print_info: true,
    }));
    assert!(needs_moves(&cmd));
    match receive(&mut thread, &mut global, cmd, vec![mv(7, 8)]) {
        WorkerNext::Search { pos, print } => {
            assert_eq!(pos.board.hash, 9);
            assert!(print);
        }
        _ => panic!("no search"),
    }
    assert_eq!(global.num_searching, 2);
    assert_eq!(thread.nodes, 0);
    assert!(!thread.abort_now && thread.chess960);
    assert_eq!(thread.root_moves, vec![mv(7, 8)]);
    assert_eq!(thread.search_stack.len(), 256);
    for e in &thread.search_stack {
        assert!(e.pv.is_empty() && e.static_eval == Score(-32000) && e.singular.is_none());
    }
}

#[test]
fn a_worker_takes_the_moves_it_is_given() {
    let mut thread = ThreadCtx::new(0, SCALE);
    let mut global = GlobalCtx { id: 0, nodes: 0, num_searching: 1, ttable_mb: 16 };
    let cmd = ThreadCmd::Search(Box::new(SearchParams {
        pos: position(9),
        root_moves: Some(vec![mv(3, 4)]),
        chess960: false,
        print_info: false,
    }));
    assert!(!needs_moves(&cmd));
    receive(&mut thread, &mut global, cmd, vec![mv(7, 8)]);
    assert_eq!(thread.root_moves, vec![mv(3, 4)]);
}

#[test]
fn a_worker_takes_the_other_commands() {
    let mut thread = ThreadCtx::new(0, SCALE);
    let mut global = GlobalCtx { id: 0, nodes: 4, num_searching: 0, ttable_mb: 16 };
    thread.nodes = 5;
    let b = position(0).board;
    thread.history.update_corr(&b, 8, Score(1000), Score(0));
    assert_eq!(thread.history.corr(&b), 80);
    assert!(matches!(receive(&mut thread, &mut global, ThreadCmd::NewGame, vec![]), WorkerNext::Wait));
    assert_eq!(thread.history.corr(&b), 0);
    assert_eq!(thread.nodes, 5);
    let mut g = GlobalCtx { id: 1, nodes: 6, num_searching: 1, ttable_mb: 32 };
    assert!(matches!(receive(&mut thread, &mut g, ThreadCmd::SetGlobal(1), vec![]), WorkerNext::Wait));
    assert_eq!(g, GlobalCtx { id: 1, nodes: 6, num_searching: 1, ttable_mb: 32 });
    assert_eq!(global.nodes, 4);
    assert_eq!(thread.nodes, 0);
    assert!(matches!(receive(&mut thread, &mut global, ThreadCmd::Quit, vec![]), WorkerNext::Quit));
}

#[test]
fn closing_a_search() {
    let mut thread = ThreadCtx::new(0, SCALE);
    let (mut id, _) = IdLoop::begin(&mut thread);
    id.searched(&mut thread, Score(21));
    thread.root_moves = vec![mv(7, 8)];
    let mut global = GlobalCtx { id: 0, nodes: 0, num_searching: 3, ttable_mb: 16 };
    let (best, todo) = close(&id, &thread, &mut global, true);
    assert_eq!(best, mv(7, 8));
    assert_eq!(todo, vec![Closing::Report { score: Score(21), depth: 1 }, Closing::BestMove(mv(7, 8))]);
    assert_eq!(global.num_searching, 2);
    let (_, todo) = close(&id, &thread, &mut global, false);
    assert_eq!(todo, vec![Closing::ClearCount, Closing::Wake, Closing::AgeTable]);
    assert_eq!(global.num_searching, 1);
}

#[test]
fn waiters_wake_after_the_best_move() {
    let mut thread = ThreadCtx::new(0, SCALE);
    let (id, _) = IdLoop::begin(&mut thread);
    thread.root_moves = vec![mv(7, 8)];
    let mut global = GlobalCtx { id: 0, nodes: 0, num_searching: 2, ttable_mb: 16 };
    let (_, todo) = close(&id, &thread, &mut global, true);
    assert_eq!(
        todo,
        vec![
            Closing::Report { score: Score(-32000), depth: 1 },
            Closing::BestMove(mv(7, 8)),
            Closing::ClearCount,
            Closing::Wake,
            Closing::AgeTable,
        ]
    );
    // nobody goes on before the move to play was printed
    let mut s = Searcher { global_ctx: global, worker: true };
    for step in todo {
        match step {
            Closing::Report { .. } | Closing::BestMove(_) => assert_eq!(s.wait(), Some(1)),
            Closing::ClearCount => s.global_ctx.clear(),
            Closing::Wake | Closing::AgeTable => assert_eq!(s.wait(), None),
        }
    }
}

#[test]
fn an_empty_list_of_moves_counts_too() {
    let mut s = Searcher::default(16);
    let limits = vec![SearchLimit::SearchMoves(vec![]), SearchLimit::SearchMoves(vec![mv(1, 2)])];
    assert_eq!(params_of(s.search(position(3), limits, false, true)).root_moves, Some(vec![]));
}

#[test]
fn nodes_are_counted_in_the_context_that_a_worker_was_given() {
    let mut thread = ThreadCtx::new(0, SCALE);
    let old = GlobalCtx { id: 0, nodes: 9, num_searching: 0, ttable_mb: 16 };
    let mut new = GlobalCtx { id: 1, nodes: 0, num_searching: 0, ttable_mb: 32 };
    receive(&mut thread, &mut new, ThreadCmd::SetGlobal(1), vec![]);
    new.count_nodes(5);
    receive(&mut thread, &mut new, ThreadCmd::NewGame, vec![]);
    new.count_nodes(7);
    assert_eq!(new, GlobalCtx { id: 1, nodes: 12, num_searching: 0, ttable_mb: 32 });
    assert_eq!(old.nodes, 9);
    new.count_nodes(u64::MAX);
    assert_eq!(new.nodes, 11);
}

#[test]
fn a_search_right_after_a_resize_runs_without_a_gap() {
    let mut s = Searcher::default(16);
    let mut thread = ThreadCtx::new(0, SCALE);
    let mut queue: Vec<ThreadCmd> = Vec::new();
    for effect in s.resize_ttable(64) {
        if let Effect::Send(cmd) = effect {
            queue.push(cmd);
        }
    }
    for effect in s.search(position(3), vec![], false, false) {
        if let Effect::Send(cmd) = effect {
            queue.push(cmd);
        }
    }
    assert_eq!(queue.len(), 2);
    assert_eq!(s.wait(), Some(1));
    // the worker only now takes what was sent, and shares the context with the handle
    for (cmd, count) in queue.into_iter().zip([1, 2]) {
        receive(&mut thread, &mut s.global_ctx, cmd, vec![mv(7, 8)]);
        assert!(s.is_running());
        assert_eq!(s.wait(), Some(count));
    }
    let (id, _) = IdLoop::begin(&mut thread);
    let (_, todo) = close(&id, &thread, &mut s.global_ctx, false);
    assert!(s.is_running());
    assert_eq!(todo, vec![Closing::ClearCount, Closing::Wake, Closing::AgeTable]);
    s.global_ctx.clear();
    assert!(!s.is_running());
}

#[test]
fn info_facts() {
    let mut thread = ThreadCtx::new(0, SCALE);
    thread.sel_depth = 12;
    update_pv(&mut thread, 1, mv(5, 6));
    update_pv(&mut thread, 0, mv(3, 4));
    thread.root_pv = thread.search_stack[0].pv.clone();
    let info = print_info(Score(33), 9, &thread, 1234, 56_789, 17);
    assert_eq!(info.depth, 9);
    assert_eq!(info.sel_depth, 12);
    assert_eq!(info.score, Score(33));
    assert_eq!(info.time_ms, 56);
    assert_eq!(info.nodes, 1234);
    assert_eq!(info.hashfull, 17);
    assert_eq!(info.pv, vec![mv(3, 4), mv(5, 6)]);
}

#[test]
fn words_are_joined_by_spaces() {
    assert_eq!(join_words(&vec![]), "");
    assert_eq!(join_words(&vec!["e2e4".to_owned()]), "e2e4");
    assert_eq!(join_words(&vec!["e2e4".to_owned(), "e7e5".to_owned(), "g1f3".to_owned()]), "e2e4 e7e5 g1f3");
}

#[test]
fn info_lines() {
    let info = Info {
        depth: 9,
        sel_depth: 12,
        score: Score(33),
        time_ms: 0,
        nodes: u64::MAX,
        hashfull: 1000,
        pv: vec![mv(1, 2)],
    };
    assert_eq!(
        info_line(&info, 10_203, "cp 33", &vec!["e2e4".to_owned(), "e7e5".to_owned()]),
        "info depth 9 seldepth 12 score cp 33 time 0 nodes 18446744073709551615 nps 10203 hashfull 1000 pv e2e4 e7e5"
    );
    assert_eq!(
        info_line(&info, 0, "mate 3", &vec![]),
        "info depth 9 seldepth 12 score mate 3 time 0 nodes 18446744073709551615 nps 0 hashfull 1000 pv "
    );
    assert_eq!(best_move_line("g1f3"), "bestmove g1f3");
}
