//! The rules of the tables, over plain values: which entries a move and a board have, what
//! their scores are, and what a cutoff and a correction do to them.
use vstd::prelude::*;

use crate::board::{Board, Color, Move, Piece, Position};
use crate::history;
use crate::history::Tables;

verus! {

/// Two moves share an entry of the quiet table exactly if they are moves of the same side
/// between the same squares, of which the same ones are attacked.
pub proof fn law_quiet_entry(a: Board, m: Move, b: Board, k: Move)
    requires
        m.wf(),
        k.wf(),
    ensures
        0 <= history::quiet_key(a, m) < 32768,
        history::quiet_key(a, m) == history::quiet_key(b, k) <==> {
            &&& a.stm == b.stm && m.from == k.from && m.to == k.to
            &&& ((a.attacked >> (m.from as u64)) & 1 == 1) == ((b.attacked >> (k.from as u64)) & 1 == 1)
            &&& ((a.attacked >> (m.to as u64)) & 1 == 1) == ((b.attacked >> (k.to as u64)) & 1 == 1)
        },
{
    history::law_quiet_entries_are_separate(
        a.stm,
        m.from as int,
        a.spec_is_attacked(m.from),
        m.to as int,
        a.spec_is_attacked(m.to),
        b.stm,
        k.from as int,
        b.spec_is_attacked(k.from),
        k.to as int,
        b.spec_is_attacked(k.to),
    );
}

/// Two moves share an entry of the tactic table exactly if they are moves of the same side and
/// the same kind of piece to the same square, and take the same kind of piece there; an empty
/// square counts as a pawn.
pub proof fn law_tactic_entry(a: Board, m: Move, b: Board, k: Move)
    requires
        m.wf(),
        k.wf(),
        a.pieces@[m.from as int] is Some,
        b.pieces@[k.from as int] is Some,
    ensures
        0 <= history::tactic_key(a, m) < 4608,
        ({
            let taken = |board: Board, mv: Move|
                match board.pieces@[mv.to as int] {
                    Some(piece) => piece,
                    None => Piece::Pawn,
                };
            history::tactic_key(a, m) == history::tactic_key(b, k) <==> {
                &&& a.stm == b.stm && m.to == k.to
                &&& a.pieces@[m.from as int] == b.pieces@[k.from as int]
                &&& taken(a, m) == taken(b, k)
            }
        }),
{
    history::law_tactic_entries_are_separate(
        a.stm,
        a.spec_piece_on(m.from).unwrap(),
        history::victim(a, m),
        m.to as int,
        b.stm,
        b.spec_piece_on(k.from).unwrap(),
        history::victim(b, k),
        k.to as int,
    );
}

/// Two moves share an entry of the continuation table exactly if they are moves of the same
/// side and the same kind of piece to the same square, after moves that were such too.
pub proof fn law_continuation_entry(a: Board, before: (Piece, Move), m: Move, b: Board, earlier: (Piece, Move), k: Move)
    requires
        m.wf(),
        k.wf(),
        before.1.wf(),
        earlier.1.wf(),
        a.pieces@[m.from as int] is Some,
        b.pieces@[k.from as int] is Some,
    ensures
        0 <= history::cont_key(a, before, m) < 294912,
        history::cont_key(a, before, m) == history::cont_key(b, earlier, k) <==> {
            &&& a.stm == b.stm && m.to == k.to
            &&& a.pieces@[m.from as int] == b.pieces@[k.from as int]
            &&& before.0 == earlier.0 && before.1.to == earlier.1.to
        },
{
    history::law_cont_entries_are_separate(
        a.stm,
        before.0,
        before.1.to as int,
        a.spec_piece_on(m.from).unwrap(),
        m.to as int,
        b.stm,
        earlier.0,
        earlier.1.to as int,
        b.spec_piece_on(k.from).unwrap(),
        k.to as int,
    );
}

/// Two hashes share an entry of a correction table exactly if they are of the same side and
/// equal in their last fourteen bits.
pub proof fn law_correction_entry(a: Color, hash: u64, b: Color, other: u64)
    ensures
        0 <= history::corr_key(a, hash) < 32768,
        history::corr_key(a, hash) == history::corr_key(b, other) <==> a == b && hash % 16384 == other % 16384,
{
}

/// Tables that have learned nothing hold nothing but zeros, as many as there are entries.
pub proof fn law_blank_tables_are_zero(i: int)
    ensures
        Tables::blank().quiet.len() == 32768,
        Tables::blank().tactic.len() == 4608,
        Tables::blank().cont_oneply.len() == 294912,
        Tables::blank().pawn_corr.len() == 32768,
        Tables::blank().minor_corr.len() == 32768,
        Tables::blank().major_corr.len() == 32768,
        Tables::blank().white_nonpawn_corr.len() == 32768,
        Tables::blank().black_nonpawn_corr.len() == 32768,
        0 <= i < 32768 ==> Tables::blank().quiet[i] == 0 && Tables::blank().pawn_corr[i] == 0
            && Tables::blank().minor_corr[i] == 0 && Tables::blank().major_corr[i] == 0
            && Tables::blank().white_nonpawn_corr[i] == 0 && Tables::blank().black_nonpawn_corr[i] == 0,
        0 <= i < 4608 ==> Tables::blank().tactic[i] == 0,
        0 <= i < 294912 ==> Tables::blank().cont_oneply[i] == 0,
{
}

/// The score of a quiet move is its entry in the quiet table plus, after a move, its entry in
/// the continuation table; that of a tactical move is its entry in the tactic table. This is
/// so for both sides.
pub proof fn law_scores_are_entries(tables: Tables, pos: Position, mv: Move)
    ensures
        pos.prev is None ==> tables.score_quiet(pos, mv) == tables.quiet[history::quiet_key(pos.board, mv)],
        pos.prev matches Some(prev) ==> tables.score_quiet(pos, mv) == tables.quiet[history::quiet_key(pos.board, mv)]
            + tables.cont_oneply[history::cont_key(pos.board, prev, mv)],
        tables.score_tactic(pos.board, mv) == tables.tactic[history::tactic_key(pos.board, mv)],
{
}

/// The sum of the five entries of a board in the correction tables: those of its pawns, its
/// minor and major pieces, and the pieces of either side.
pub open spec fn entries_sum(tables: Tables, board: Board) -> int {
    tables.pawn_corr[history::corr_key(board.stm, board.pawn_hash)] + tables.minor_corr[history::corr_key(
        board.stm,
        board.minor_hash,
    )] + tables.major_corr[history::corr_key(board.stm, board.major_hash)]
        + tables.white_nonpawn_corr[history::corr_key(board.stm, board.white_nonpawn_hash)]
        + tables.black_nonpawn_corr[history::corr_key(board.stm, board.black_nonpawn_hash)]
}

/// The correction of a board is a sixteenth of the sum of its five entries, rounded toward
/// zero.
pub proof fn law_correction_is_a_share_of_the_entries(tables: Tables, board: Board)
    ensures
        ({
            let key = |hash: u64| history::corr_key(board.stm, hash);
            let sum = tables.pawn_corr[key(board.pawn_hash)] + tables.minor_corr[key(board.minor_hash)]
                + tables.major_corr[key(board.major_hash)] + tables.white_nonpawn_corr[key(board.white_nonpawn_hash)]
                + tables.black_nonpawn_corr[key(board.black_nonpawn_hash)];
            let c = tables.corr(board);
            &&& sum == entries_sum(tables, board)
            &&& sum >= 0 ==> 16 * c <= sum < 16 * (c + 1)
            &&& sum <= 0 ==> 16 * (c - 1) < sum <= 16 * c
        }),
{
}

/// A lesson of so many points: it is added to the entry, less the share of the entry that the
/// lesson has of the bound, rounded toward zero. Larger lessons count as 16384 points.
pub proof fn law_lesson_by_number(v: int, a: int)
    ensures
        ({
            let size: int = if a > 16384 || a < -16384 {
                16384
            } else if a < 0 {
                -a
            } else {
                a
            };
            let points = if a < 0 {
                -size
            } else {
                size
            };
            let lost = v + points - history::learned(v, a);
            &&& v >= 0 ==> 16384 * lost <= v * size < 16384 * (lost + 1)
            &&& v <= 0 ==> 16384 * (lost - 1) < v * size <= 16384 * lost
        }),
{
    let size: int = if a > 16384 || a < -16384 {
        16384
    } else if a < 0 {
        -a
    } else {
        a
    };
    assert(v * size >= 0 <== v >= 0) by (nonlinear_arith)
        requires
            size >= 0,
    ;
    assert(v * size <= 0 <== v <= 0) by (nonlinear_arith)
        requires
            size >= 0,
    ;
}

/// A correction of so many points, of which at most 256 count, in tables whose bound is 1024.
pub proof fn law_correction_by_number(v: int, a: int)
    ensures
        ({
            let size: int = if a > 256 || a < -256 {
                256
            } else if a < 0 {
                -a
            } else {
                a
            };
            let points = if a < 0 {
                -size
            } else {
                size
            };
            let lost = v + points - history::corrected(v, a);
            &&& v >= 0 ==> 1024 * lost <= v * size < 1024 * (lost + 1)
            &&& v <= 0 ==> 1024 * (lost - 1) < v * size <= 1024 * lost
        }),
{
    let size: int = if a > 256 || a < -256 {
        256
    } else if a < 0 {
        -a
    } else {
        a
    };
    assert(v * size >= 0 <== v >= 0) by (nonlinear_arith)
        requires
            size >= 0,
    ;
    assert(v * size <= 0 <== v <= 0) by (nonlinear_arith)
        requires
            size >= 0,
    ;
}

/// A cutoff at a depth teaches 128 points and 128 more per ply, 2048 at most. An error of the
/// evaluation is worth an eighth of itself per ply, rounded toward zero.
pub proof fn law_size_of_lessons(depth: int, score: int, static_eval: int)
    ensures
        depth <= 15 ==> history::lesson(depth) == 128 * (depth + 1),
        depth >= 15 ==> history::lesson(depth) == 2048,
        ({
            let error = (score - static_eval) * depth;
            let points = history::correction(depth, score, static_eval);
            &&& error >= 0 ==> 8 * points <= error < 8 * (points + 1)
            &&& error <= 0 ==> 8 * (points - 1) < error <= 8 * points
        }),
{
}

/// The entry of one key is taught so many points, and no other entry changes.
pub open spec fn taught_once(table: Seq<i16>, key: int, points: int, then: Seq<i16>) -> bool {
    &&& then.len() == table.len()
    &&& then[key] == history::learned(table[key] as int, points)
    &&& forall|i: int| 0 <= i < table.len() && i != key ==> #[trigger] then[i] == table[i]
}

proof fn lemma_taught_once(table: Seq<i16>, key: int, points: int)
    requires
        history::bounded(table, table.len() as int, 16384),
        0 <= key < table.len(),
    ensures
        taught_once(table, key, points, history::teach(table, key, points)),
        history::bounded(history::teach(table, key, points), table.len() as int, 16384),
{
    history::law_lesson_direction(table[key] as int, points);
}

/// The correction tables are left alone.
pub open spec fn uncorrected(a: Tables, b: Tables) -> bool {
    &&& a.pawn_corr == b.pawn_corr
    &&& a.minor_corr == b.minor_corr
    &&& a.major_corr == b.major_corr
    &&& a.white_nonpawn_corr == b.white_nonpawn_corr
    &&& a.black_nonpawn_corr == b.black_nonpawn_corr
}

/// A cutoff with no move tried before it rewards its own move and nothing else: a tactical one
/// in the tactic table, any other in the quiet table and, after a move, in the continuation
/// table.
pub proof fn law_first_move_cutoff(tables: Tables, pos: Position, mv: Move, depth: int)
    requires
        tables.wf(),
        history::can_update(pos, mv, Seq::empty(), Seq::empty()),
    ensures
        ({
            let then = tables.update(pos, mv, Seq::empty(), Seq::empty(), depth);
            let points = history::lesson(depth);
            &&& uncorrected(then, tables)
            &&& mv.tactic ==> taught_once(tables.tactic, history::tactic_key(pos.board, mv), points, then.tactic)
                && then.quiet == tables.quiet && then.cont_oneply == tables.cont_oneply
            &&& !mv.tactic ==> taught_once(tables.quiet, history::quiet_key(pos.board, mv), points, then.quiet)
                && then.tactic == tables.tactic
            &&& !mv.tactic ==> match pos.prev {
                Some(prev) => taught_once(
                    tables.cont_oneply,
                    history::cont_key(pos.board, prev, mv),
                    points,
                    then.cont_oneply,
                ),
                None => then.cont_oneply == tables.cont_oneply,
            }
        }),
{
    let board = pos.board;
    let none = Seq::<Move>::empty();
    let points = history::lesson(depth);
    assert(history::tactic_keys(board, none).len() == 0);
    assert(history::quiet_keys(board, none).len() == 0);
    if mv.tactic {
        lemma_taught_once(tables.tactic, history::tactic_key(board, mv), points);
    } else {
        lemma_taught_once(tables.quiet, history::quiet_key(board, mv), points);
        if let Some(prev) = pos.prev {
            assert(history::cont_keys(board, prev, none).len() == 0);
            lemma_taught_once(tables.cont_oneply, history::cont_key(board, prev, mv), points);
        }
    }
}

/// One more quiet move that was tried before a quiet cutoff is punished by as much as the
/// cutoff is rewarded, in the quiet table and, after a move, in the continuation table. A
/// tactical cutoff does not care for quiet moves.
pub proof fn law_one_more_quiet_move(
    tables: Tables,
    pos: Position,
    mv: Move,
    quiets: Seq<Move>,
    tactics: Seq<Move>,
    depth: int,
    more: Move,
)
    requires
        tables.wf(),
        history::can_update(pos, mv, quiets.push(more), tactics),
    ensures
        ({
            let before = tables.update(pos, mv, quiets, tactics, depth);
            let then = tables.update(pos, mv, quiets.push(more), tactics, depth);
            let points = -history::lesson(depth);
            &&& uncorrected(then, before)
            &&& then.tactic == before.tactic
            &&& mv.tactic ==> then == before
            &&& !mv.tactic ==> taught_once(before.quiet, history::quiet_key(pos.board, more), points, then.quiet)
            &&& !mv.tactic ==> match pos.prev {
                Some(prev) => taught_once(
                    before.cont_oneply,
                    history::cont_key(pos.board, prev, more),
                    points,
                    then.cont_oneply,
                ),
                None => then.cont_oneply == before.cont_oneply,
            }
        }),
{
    let board = pos.board;
    let all = quiets.push(more);
    let points = -history::lesson(depth);
    assert(all[quiets.len() as int] == more);
    assert(crate::board::all_on_board(quiets)) by {
        assert forall|i: int| 0 <= i < quiets.len() implies (#[trigger] quiets[i]).wf() by {
            assert(all[i].wf());
        }
    }
    assert(more.wf());
    if !mv.tactic {
        assert(pos.prev is Some ==> history::all_have_piece(board, quiets)) by {
            assert forall|i: int| pos.prev is Some && 0 <= i < quiets.len() implies board.spec_piece_on(
                (#[trigger] quiets[i]).from,
            ) is Some by {
                assert(board.spec_piece_on(all[i].from) is Some);
            }
        }
        history::law_update_keeps_bounds(tables, pos, mv, quiets, tactics, depth);
        let before = tables.update(pos, mv, quiets, tactics, depth);
        let keys = history::quiet_keys(board, all);
        assert(keys.drop_last() =~= history::quiet_keys(board, quiets));
        lemma_taught_once(before.quiet, history::quiet_key(board, more), points);
        if let Some(prev) = pos.prev {
            let keys = history::cont_keys(board, prev, all);
            assert(keys.drop_last() =~= history::cont_keys(board, prev, quiets));
            assert(board.spec_piece_on(all[quiets.len() as int].from) is Some);
            lemma_taught_once(before.cont_oneply, history::cont_key(board, prev, more), points);
        }
    }
}

/// One more tactical move that was tried before any cutoff is punished by as much as the
/// cutoff is rewarded, in the tactic table alone.
pub proof fn law_one_more_tactical_move(
    tables: Tables,
    pos: Position,
    mv: Move,
    quiets: Seq<Move>,
    tactics: Seq<Move>,
    depth: int,
    more: Move,
)
    requires
        tables.wf(),
        history::can_update(pos, mv, quiets, tactics.push(more)),
    ensures
        ({
            let before = tables.update(pos, mv, quiets, tactics, depth);
            let then = tables.update(pos, mv, quiets, tactics.push(more), depth);
            &&& uncorrected(then, before)
            &&& then.quiet == before.quiet && then.cont_oneply == before.cont_oneply
            &&& taught_once(
                before.tactic,
                history::tactic_key(pos.board, more),
                -history::lesson(depth),
                then.tactic,
            )
        }),
{
    let board = pos.board;
    let all = tactics.push(more);
    assert(all[tactics.len() as int] == more);
    assert(more.wf() && board.spec_piece_on(more.from) is Some) by {
        assert(all[tactics.len() as int].wf());
        assert(board.spec_piece_on(all[tactics.len() as int].from) is Some);
    }
    assert forall|i: int| 0 <= i < tactics.len() implies (#[trigger] tactics[i]).wf() && board.spec_piece_on(
        tactics[i].from,
    ) is Some by {
        assert(all[i].wf());
        assert(board.spec_piece_on(all[i].from) is Some);
    }
    history::law_update_keeps_bounds(tables, pos, mv, quiets, tactics, depth);
    let before = tables.update(pos, mv, quiets, tactics, depth);
    assert(history::tactic_keys(board, all).drop_last() =~= history::tactic_keys(board, tactics));
    lemma_taught_once(before.tactic, history::tactic_key(board, more), -history::lesson(depth));
}

/// Lessons of one sign, taught to a table in turn, move entries in their direction: strictly
/// if an entry is among the keys and not at its bound, not at all if it is not among them.
proof fn lemma_all_punished(table: Seq<i16>, keys: Seq<int>, points: int, i: int)
    requires
        history::bounded(table, table.len() as int, 16384),
        forall|j: int| 0 <= j < keys.len() ==> 0 <= #[trigger] keys[j] < table.len(),
        0 <= i < table.len(),
        points < 0,
    ensures
        history::bounded(history::teach_all(table, keys, points), table.len() as int, 16384),
        history::teach_all(table, keys, points)[i] <= table[i],
        keys.contains(i) && table[i] > -16384 ==> history::teach_all(table, keys, points)[i] < table[i],
        !keys.contains(i) ==> history::teach_all(table, keys, points)[i] == table[i],
    decreases keys.len(),
{
    if keys.len() > 0 {
        let rest = keys.drop_last();
        let last = keys[keys.len() - 1];
        assert forall|j: int| 0 <= j < rest.len() implies 0 <= #[trigger] rest[j] < table.len() by {
            assert(rest[j] == keys[j]);
        }
        lemma_all_punished(table, rest, points, i);
        let before = history::teach_all(table, rest, points);
        lemma_taught_once(before, last, points);
        history::law_lesson_direction(before[last] as int, points);
        if keys.contains(i) && i != last {
            let j = choose|j: int| 0 <= j < keys.len() && keys[j] == i;
            assert(rest[j] == i);
        }
        if rest.contains(i) {
            let j = choose|j: int| 0 <= j < rest.len() && rest[j] == i;
            assert(keys[j] == i);
        }
        assert(keys.contains(last));
    }
}

/// For either side to move, a quiet cutoff raises the score of its move, and lowers the score
/// of every quiet move that was tried before it, as long as no entry is at its bound and the
/// entries of the move that cut off are not those of a move that did not.
pub proof fn law_quiet_cutoff_orders_moves(
    tables: Tables,
    pos: Position,
    mv: Move,
    quiets: Seq<Move>,
    tactics: Seq<Move>,
    depth: int,
)
    requires
        tables.wf(),
        history::can_update(pos, mv, quiets, tactics),
        !mv.tactic,
        depth >= 0,
        forall|i: int|
            0 <= i < quiets.len() ==> history::quiet_key(pos.board, #[trigger] quiets[i]) != history::quiet_key(
                pos.board,
                mv,
            ) && (pos.prev matches Some(prev) ==> history::cont_key(pos.board, prev, quiets[i]) != history::cont_key(
                pos.board,
                prev,
                mv,
            )),
    ensures
        ({
            let then = tables.update(pos, mv, quiets, tactics, depth);
            &&& tables.quiet[history::quiet_key(pos.board, mv)] < 16384 ==> then.score_quiet(pos, mv)
                > tables.score_quiet(pos, mv)
            &&& then.score_quiet(pos, mv) >= tables.score_quiet(pos, mv)
            &&& forall|i: int|
                0 <= i < quiets.len() ==> then.score_quiet(pos, #[trigger] quiets[i]) <= tables.score_quiet(
                    pos,
                    quiets[i],
                ) && (tables.quiet[history::quiet_key(pos.board, quiets[i])] > -16384 ==> then.score_quiet(
                    pos,
                    quiets[i],
                ) < tables.score_quiet(pos, quiets[i]))
        }),
{
    let board = pos.board;
    let points = history::lesson(depth);
    let then = tables.update(pos, mv, quiets, tactics, depth);
    let key = history::quiet_key(board, mv);
    let keys = history::quiet_keys(board, quiets);
    let rewarded = history::teach(tables.quiet, key, points);
    lemma_taught_once(tables.quiet, key, points);
    history::law_lesson_direction(tables.quiet[key] as int, points);
    assert forall|j: int| 0 <= j < keys.len() implies 0 <= #[trigger] keys[j] < 32768 && keys[j] != key by {
        assert(quiets[j].wf());
    }
    lemma_all_punished(rewarded, keys, -points, key);
    if let Some(prev) = pos.prev {
        let cont = history::cont_key(board, prev, mv);
        let conts = history::cont_keys(board, prev, quiets);
        lemma_taught_once(tables.cont_oneply, cont, points);
        history::law_lesson_direction(tables.cont_oneply[cont] as int, points);
        assert forall|j: int| 0 <= j < conts.len() implies 0 <= #[trigger] conts[j] < 294912 && conts[j] != cont by {
            assert(quiets[j].wf());
            assert(board.spec_piece_on(quiets[j].from) is Some);
        }
        lemma_all_punished(history::teach(tables.cont_oneply, cont, points), conts, -points, cont);
    }
    assert forall|i: int| 0 <= i < quiets.len() implies then.score_quiet(pos, #[trigger] quiets[i])
        <= tables.score_quiet(pos, quiets[i]) && (tables.quiet[history::quiet_key(board, quiets[i])] > -16384
        ==> then.score_quiet(pos, quiets[i]) < tables.score_quiet(pos, quiets[i])) by {
        let k = keys[i];
        assert(keys.contains(k));
        lemma_all_punished(rewarded, keys, -points, k);
        if let Some(prev) = pos.prev {
            let cont = history::cont_key(board, prev, mv);
            let conts = history::cont_keys(board, prev, quiets);
            let c = conts[i];
            lemma_all_punished(history::teach(tables.cont_oneply, cont, points), conts, -points, c);
        }
    }
}

/// For either side to move, a tactical cutoff raises the score of its move, and every cutoff
/// lowers the scores of the tactical moves that were tried before it.
pub proof fn law_tactical_moves_are_ordered(
    tables: Tables,
    pos: Position,
    mv: Move,
    quiets: Seq<Move>,
    tactics: Seq<Move>,
    depth: int,
)
    requires
        tables.wf(),
        history::can_update(pos, mv, quiets, tactics),
        depth >= 0,
        forall|i: int|
            0 <= i < tactics.len() && mv.tactic ==> history::tactic_key(pos.board, #[trigger] tactics[i])
                != history::tactic_key(pos.board, mv),
    ensures
        ({
            let then = tables.update(pos, mv, quiets, tactics, depth);
            &&& mv.tactic && tables.score_tactic(pos.board, mv) < 16384 ==> then.score_tactic(pos.board, mv)
                > tables.score_tactic(pos.board, mv)
            &&& forall|i: int|
                0 <= i < tactics.len() && tables.score_tactic(pos.board, #[trigger] tactics[i]) > -16384
                    ==> then.score_tactic(pos.board, tactics[i]) < tables.score_tactic(pos.board, tactics[i])
        }),
{
    let board = pos.board;
    let points = history::lesson(depth);
    let then = tables.update(pos, mv, quiets, tactics, depth);
    let keys = history::tactic_keys(board, tactics);
    assert forall|j: int| 0 <= j < keys.len() implies 0 <= #[trigger] keys[j] < 4608 by {
        assert(tactics[j].wf());
        assert(board.spec_piece_on(tactics[j].from) is Some);
    }
    let key = history::tactic_key(board, mv);
    let start = if mv.tactic {
        history::teach(tables.tactic, key, points)
    } else {
        tables.tactic
    };
    if mv.tactic {
        lemma_taught_once(tables.tactic, key, points);
        history::law_lesson_direction(tables.tactic[key] as int, points);
        if keys.contains(key) {
            let j = choose|j: int| 0 <= j < keys.len() && keys[j] == key;
            assert(history::tactic_key(board, tactics[j]) == key);
        }
        lemma_all_punished(start, keys, -points, key);
    }
    assert forall|i: int|
        0 <= i < tactics.len() && tables.score_tactic(board, #[trigger] tactics[i]) > -16384 implies then.score_tactic(
        board,
        tactics[i],
    ) < tables.score_tactic(board, tactics[i]) by {
        let k = keys[i];
        assert(keys.contains(k));
        lemma_all_punished(start, keys, -points, k);
    }
}

/// Each entry of the board is corrected by the same number of points.
pub open spec fn corrected_once(table: Seq<i16>, key: int, points: int, then: Seq<i16>) -> bool {
    &&& then.len() == table.len()
    &&& then[key] == history::corrected(table[key] as int, points)
    &&& forall|i: int| 0 <= i < table.len() && i != key ==> #[trigger] then[i] == table[i]
}

/// A correction moves the entry of the board in each of the five tables, by the same points,
/// and nothing else; the move tables stay as they are.
pub proof fn law_correction_moves_five_entries(
    tables: Tables,
    board: Board,
    depth: int,
    score: int,
    static_eval: int,
)
    requires
        tables.wf(),
    ensures
        ({
            let then = tables.update_corr(board, depth, score, static_eval);
            let points = history::correction(depth, score, static_eval);
            let key = |hash: u64| history::corr_key(board.stm, hash);
            &&& corrected_once(tables.pawn_corr, key(board.pawn_hash), points, then.pawn_corr)
            &&& corrected_once(tables.minor_corr, key(board.minor_hash), points, then.minor_corr)
            &&& corrected_once(tables.major_corr, key(board.major_hash), points, then.major_corr)
            &&& corrected_once(
                tables.white_nonpawn_corr,
                key(board.white_nonpawn_hash),
                points,
                then.white_nonpawn_corr,
            )
            &&& corrected_once(
                tables.black_nonpawn_corr,
                key(board.black_nonpawn_hash),
                points,
                then.black_nonpawn_corr,
            )
            &&& then.quiet == tables.quiet && then.tactic == tables.tactic && then.cont_oneply == tables.cont_oneply
        }),
{
    let points = history::correction(depth, score, static_eval);
    history::law_correction_direction(tables.pawn_corr[history::corr_key(board.stm, board.pawn_hash)] as int, points);
    history::law_correction_direction(tables.minor_corr[history::corr_key(board.stm, board.minor_hash)] as int, points);
    history::law_correction_direction(tables.major_corr[history::corr_key(board.stm, board.major_hash)] as int, points);
    history::law_correction_direction(
        tables.white_nonpawn_corr[history::corr_key(board.stm, board.white_nonpawn_hash)] as int,
        points,
    );
    history::law_correction_direction(
        tables.black_nonpawn_corr[history::corr_key(board.stm, board.black_nonpawn_hash)] as int,
        points,
    );
}

/// For either side to move, a board that proved to be worth more than its evaluation is never
/// corrected downward, and one that proved to be worth less never upward. From eight plies on
/// the sum of its entries does move, unless that of its pawns is at its bound.
pub proof fn law_correction_follows_the_error(
    tables: Tables,
    board: Board,
    depth: int,
    score: int,
    static_eval: int,
)
    requires
        tables.wf(),
        depth >= 0,
    ensures
        ({
            let then = tables.update_corr(board, depth, score, static_eval);
            let free = |bound: int|
                tables.pawn_corr[history::corr_key(board.stm, board.pawn_hash)] != bound;
            &&& score >= static_eval ==> then.corr(board) >= tables.corr(board)
            &&& score <= static_eval ==> then.corr(board) <= tables.corr(board)
            &&& score > static_eval && depth >= 8 && free(1024) ==> entries_sum(then, board) > entries_sum(tables, board)
            &&& score < static_eval && depth >= 8 && free(-1024) ==> entries_sum(then, board) < entries_sum(
                tables,
                board,
            )
        }),
{
    let then = tables.update_corr(board, depth, score, static_eval);
    let points = history::correction(depth, score, static_eval);
    let error = (score - static_eval) * depth;
    law_correction_moves_five_entries(tables, board, depth, score, static_eval);
    law_size_of_lessons(depth, score, static_eval);
    law_correction_is_a_share_of_the_entries(tables, board);
    law_correction_is_a_share_of_the_entries(then, board);
    assert(score >= static_eval ==> error >= 0) by (nonlinear_arith)
        requires
            error == (score - static_eval) * depth,
            depth >= 0,
    ;
    assert(score <= static_eval ==> error <= 0) by (nonlinear_arith)
        requires
            error == (score - static_eval) * depth,
            depth >= 0,
    ;
    assert(score > static_eval && depth >= 8 ==> error >= 8) by (nonlinear_arith)
        requires
            error == (score - static_eval) * depth,
    ;
    assert(score < static_eval && depth >= 8 ==> error <= -8) by (nonlinear_arith)
        requires
            error == (score - static_eval) * depth,
    ;
    history::law_correction_direction(tables.pawn_corr[history::corr_key(board.stm, board.pawn_hash)] as int, points);
    history::law_correction_direction(tables.minor_corr[history::corr_key(board.stm, board.minor_hash)] as int, points);
    history::law_correction_direction(tables.major_corr[history::corr_key(board.stm, board.major_hash)] as int, points);
    history::law_correction_direction(
        tables.white_nonpawn_corr[history::corr_key(board.stm, board.white_nonpawn_hash)] as int,
        points,
    );
    history::law_correction_direction(
        tables.black_nonpawn_corr[history::corr_key(board.stm, board.black_nonpawn_hash)] as int,
        points,
    );
}

} // verus!
