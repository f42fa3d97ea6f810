//! The search of a chess engine: its nodes, the tables it learns from, its iterative
//! deepening and the commands of its threads.
//!
//! The engine holds the board, the move picker, the transposition table and the clock.
//! The search asks for them one query at a time: a node ([`search`], [`qsearch`]) is a
//! state machine, a [`run`] keeps the nodes of a tree on a stack, and [`id_loop`] searches
//! the root depth by depth. What holds of every step is proved in the modules of laws, and
//! what holds of a search from its start to its end in those of its course. The modules of
//! rules say over plain values what each part does.
pub mod board;
pub mod course;
pub mod course_lines;
pub mod course_marks;
pub mod course_root;
pub mod decisions;
pub mod deepening_rules;
pub mod history;
pub mod id_loop;
pub mod limits;
pub mod math;
pub mod move_list;
pub mod node;
pub mod pv;
pub mod qsearch;
pub mod qsearch_laws;
pub mod qsearch_rules;
pub mod report;
pub mod report_rules;
pub mod run;
pub mod run_laws;
pub mod run_rules;
pub mod score;
pub mod search;
pub mod search_laws;
pub mod search_rules;
pub mod searcher;
pub mod system;
pub mod table_rules;
pub mod thread;
pub mod value_rules;
