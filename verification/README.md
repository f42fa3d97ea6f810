# icarus_search

The search of the chess engine Icarus, written and verified in Verus.

The library decides; the engine around it acts. A node of the search is a state machine
that asks for one thing at a time (an entry of the transposition table, an evaluation, the
next move), and every step of it has an exact contract.

- `src/board.rs`, `src/score.rs`, `src/limits.rs`: what the search reads of a position, the
  scale of scores, and the size of the tree.
- `src/history.rs`: the history and correction tables.
- `src/decisions.rs`: pruning, reductions, extensions and cutoffs as functions of plain
  values.
- `src/node.rs`, `src/search.rs`, `src/qsearch.rs`: the nodes of the main search and of the
  quiescence search.
- `src/run.rs`: a search of a whole tree, with its nodes on a stack.
- `src/thread.rs`, `src/pv.rs`, `src/move_list.rs`: the data of a search thread, its
  principal variations and its lists of tried moves.
- `src/id_loop.rs`, `src/searcher.rs`, `src/report.rs`: iterative deepening, the commands
  of the threads, and what is reported.
- `src/search_laws.rs`, `src/qsearch_laws.rs`, `src/run_laws.rs`: what holds of every step.
- `src/course.rs`, `src/course_marks.rs`, `src/course_lines.rs`, `src/course_root.rs`: what
  holds of a search from its start to its end.
- `src/system.rs`: the handle and the worker together.
- `app/`: the ordinary Rust around the library. It answers the queries of the search, runs
  the threads and prints.

An engine brings its own board, move picker, table and clock by implementing
`app::Engine`, and sets the marks of its scale of scores with a `ScoreScale`.
