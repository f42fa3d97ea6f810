//! The tables by which the search learns from its own cutoffs.
//!
//! Each table is one flat row of entries; the key functions say which entry
//! belongs to which move or hash.
use vstd::prelude::*;

use crate::board::{Board, Color, Move, Piece, Position};
use crate::math;
use crate::score::Score;

verus! {

/// Bound of the entries of the correction tables.
pub const MAX_CORR_VALUE: i32 = 1024;

/// Bound of the entries of the move tables.
pub const MAX_HIST_VALUE: i32 = 16384;

/// Number of entries per side in each correction table.
pub const CORR_SIZE: usize = 16384;

/// Entries of the quiet table: side, origin, origin attacked, target, target attacked.
pub const QUIET_LEN: usize = 32768;

/// Entries of the tactic table: side, attacker, victim, target.
pub const TACTIC_LEN: usize = 4608;

/// Entries of the continuation table: side, previous piece, previous target, piece, target.
pub const CONT_LEN: usize = 294912;

/// Entries of a correction table: side, hash modulo [`CORR_SIZE`].
pub const CORR_LEN: usize = 32768;

/// A step of size `amount` that wears off as `value` nears `limit`.
pub open spec fn gravity(value: int, amount: int, limit: int) -> int {
    value + amount - math::trunc_div(value * math::abs(amount), limit)
}

/// What [`History::update_value`] makes of an entry.
pub open spec fn learned(value: int, amount: int) -> int {
    gravity(value, math::clamp(amount, -MAX_HIST_VALUE as int, MAX_HIST_VALUE as int), MAX_HIST_VALUE as int)
}

/// What [`History::update_corr_val`] makes of an entry.
pub open spec fn corrected(value: int, amount: int) -> int {
    gravity(value, math::clamp(amount, -256, 256), MAX_CORR_VALUE as int)
}

/// The share `a / limit` of a value, rounded down.
proof fn lemma_decay(v: int, a: int, limit: int)
    requires
        0 <= v,
        0 <= a <= limit,
        0 < limit,
    ensures
        0 <= (v * a) / limit <= v,
        v <= limit ==> (v * a) / limit <= a,
        v >= limit ==> (v * a) / limit >= a,
        v <= limit ==> v + a - (v * a) / limit <= limit,
{
    assert(0 <= v * a) by (nonlinear_arith)
        requires
            0 <= v,
            0 <= a,
    ;
    let q = (v * a) / limit;
    assert(q * limit <= v * a < q * limit + limit) by (nonlinear_arith)
        requires
            q == (v * a) / limit,
            0 < limit,
    ;
    assert(0 <= q) by (nonlinear_arith)
        requires
            0 <= v * a < q * limit + limit,
            0 < limit,
    ;
    assert(q <= v) by (nonlinear_arith)
        requires
            q * limit <= v * a,
            0 <= v,
            a <= limit,
            0 < limit,
    ;
    if v <= limit {
        assert(q <= a) by (nonlinear_arith)
            requires
                q * limit <= v * a,
                0 <= a,
                v <= limit,
                0 < limit,
        ;
        assert(v + a - q <= limit) by (nonlinear_arith)
            requires
                v * a < q * limit + limit,
                v <= limit,
                a <= limit,
                0 < limit,
        ;
    }
    if v >= limit {
        assert(q >= a) by (nonlinear_arith)
            requires
                v * a < q * limit + limit,
                0 <= a,
                v >= limit,
                0 < limit,
        ;
    }
}

/// The move tables and the correction tables, as sequences of entries.
#[verifier::ext_equal]
pub struct Tables {
    pub quiet: Seq<i16>,
    pub tactic: Seq<i16>,
    pub cont_oneply: Seq<i16>,
    pub pawn_corr: Seq<i16>,
    pub minor_corr: Seq<i16>,
    pub major_corr: Seq<i16>,
    pub white_nonpawn_corr: Seq<i16>,
    pub black_nonpawn_corr: Seq<i16>,
}

/// A table of the given length whose entries lie within `[-bound, bound]`.
pub open spec fn bounded(table: Seq<i16>, len: int, bound: int) -> bool {
    &&& table.len() == len
    &&& forall|i: int| 0 <= i < table.len() ==> -bound <= #[trigger] table[i] <= bound
}

/// A table of zeros.
pub open spec fn zeros(len: int) -> Seq<i16> {
    Seq::new(len as nat, |i: int| 0i16)
}

pub open spec fn bit(b: bool) -> int {
    if b {
        1
    } else {
        0
    }
}

/// Entry of a move in the quiet table.
pub open spec fn quiet_key(board: Board, mv: Move) -> int {
    quiet_slot(
        board.stm,
        mv.from as int,
        board.spec_is_attacked(mv.from),
        mv.to as int,
        board.spec_is_attacked(mv.to),
    )
}

pub open spec fn quiet_slot(stm: Color, from: int, from_attacked: bool, to: int, to_attacked: bool) -> int {
    (((stm.slot() * 64 + from) * 2 + bit(from_attacked)) * 64 + to) * 2 + bit(to_attacked)
}

/// What a tactical move takes: the piece on its target square. A move to an empty square
/// counts as taking a pawn: an en passant capture does, and a promotion that takes nothing
/// shares its row.
pub open spec fn victim(board: Board, mv: Move) -> Piece {
    match board.spec_piece_on(mv.to) {
        Some(piece) => piece,
        None => Piece::Pawn,
    }
}

/// Entry of a move in the tactic table.
pub open spec fn tactic_key(board: Board, mv: Move) -> int {
    tactic_slot(board.stm, board.spec_piece_on(mv.from).unwrap(), victim(board, mv), mv.to as int)
}

pub open spec fn tactic_slot(stm: Color, attacker: Piece, victim: Piece, to: int) -> int {
    ((stm.slot() * 6 + attacker.slot()) * 6 + victim.slot()) * 64 + to
}

/// Entry of a move in the continuation table, after the move `prev`.
pub open spec fn cont_key(board: Board, prev: (Piece, Move), mv: Move) -> int {
    cont_slot(board.stm, prev.0, prev.1.to as int, board.spec_piece_on(mv.from).unwrap(), mv.to as int)
}

pub open spec fn cont_slot(stm: Color, prev: Piece, prev_to: int, piece: Piece, to: int) -> int {
    (((stm.slot() * 6 + prev.slot()) * 64 + prev_to) * 6 + piece.slot()) * 64 + to
}

/// Entry of a hash in a correction table.
pub open spec fn corr_key(stm: Color, hash: u64) -> int {
    stm.slot() * 16384 + hash as int % 16384
}

/// One entry of a move table after a lesson.
pub open spec fn teach(table: Seq<i16>, key: int, amount: int) -> Seq<i16> {
    table.update(key, learned(table[key] as int, amount) as i16)
}

/// A move table after the same lesson for each key in turn.
pub open spec fn teach_all(table: Seq<i16>, keys: Seq<int>, amount: int) -> Seq<i16>
    decreases keys.len(),
{
    if keys.len() == 0 {
        table
    } else {
        teach(teach_all(table, keys.drop_last(), amount), keys.last(), amount)
    }
}

/// One entry of a correction table after a lesson.
pub open spec fn correct(table: Seq<i16>, key: int, amount: int) -> Seq<i16> {
    table.update(key, corrected(table[key] as int, amount) as i16)
}

pub open spec fn quiet_keys(board: Board, moves: Seq<Move>) -> Seq<int> {
    moves.map_values(|m: Move| quiet_key(board, m))
}

pub open spec fn tactic_keys(board: Board, moves: Seq<Move>) -> Seq<int> {
    moves.map_values(|m: Move| tactic_key(board, m))
}

pub open spec fn cont_keys(board: Board, prev: (Piece, Move), moves: Seq<Move>) -> Seq<int> {
    moves.map_values(|m: Move| cont_key(board, prev, m))
}

/// The size of a lesson: it grows with the depth of the cutoff, up to a cap.
pub open spec fn lesson(depth: int) -> int {
    math::min(128 + depth * 128, 2048)
}

/// The size of a correction: an eighth of the error per ply of depth.
pub open spec fn correction(depth: int, score: int, static_eval: int) -> int {
    math::trunc_div((score - static_eval) * depth * 128, 1024)
}

impl Tables {
    /// The lengths are those of the index spaces, and no entry is past its bound.
    pub open spec fn wf(self) -> bool {
        &&& bounded(self.quiet, QUIET_LEN as int, MAX_HIST_VALUE as int)
        &&& bounded(self.tactic, TACTIC_LEN as int, MAX_HIST_VALUE as int)
        &&& bounded(self.cont_oneply, CONT_LEN as int, MAX_HIST_VALUE as int)
        &&& bounded(self.pawn_corr, CORR_LEN as int, MAX_CORR_VALUE as int)
        &&& bounded(self.minor_corr, CORR_LEN as int, MAX_CORR_VALUE as int)
        &&& bounded(self.major_corr, CORR_LEN as int, MAX_CORR_VALUE as int)
        &&& bounded(self.white_nonpawn_corr, CORR_LEN as int, MAX_CORR_VALUE as int)
        &&& bounded(self.black_nonpawn_corr, CORR_LEN as int, MAX_CORR_VALUE as int)
    }

    /// Tables that have learned nothing.
    pub open spec fn blank() -> Tables {
        Tables {
            quiet: zeros(QUIET_LEN as int),
            tactic: zeros(TACTIC_LEN as int),
            cont_oneply: zeros(CONT_LEN as int),
            pawn_corr: zeros(CORR_LEN as int),
            minor_corr: zeros(CORR_LEN as int),
            major_corr: zeros(CORR_LEN as int),
            white_nonpawn_corr: zeros(CORR_LEN as int),
            black_nonpawn_corr: zeros(CORR_LEN as int),
        }
    }

    /// What the tables think of a quiet move.
    pub open spec fn score_quiet(self, pos: Position, mv: Move) -> int {
        self.quiet[quiet_key(pos.board, mv)] + match pos.prev {
            Some(prev) => self.cont_oneply[cont_key(pos.board, prev, mv)] as int,
            None => 0,
        }
    }

    /// What the tables think of a tactical move.
    pub open spec fn score_tactic(self, board: Board, mv: Move) -> int {
        self.tactic[tactic_key(board, mv)] as int
    }

    /// By how much the static evaluation of a board is to be corrected.
    pub open spec fn corr(self, board: Board) -> int {
        math::trunc_div(
            64 * self.pawn_corr[corr_key(board.stm, board.pawn_hash)]
                + 64 * self.minor_corr[corr_key(board.stm, board.minor_hash)]
                + 64 * self.major_corr[corr_key(board.stm, board.major_hash)]
                + 64 * self.white_nonpawn_corr[corr_key(board.stm, board.white_nonpawn_hash)]
                + 64 * self.black_nonpawn_corr[corr_key(board.stm, board.black_nonpawn_hash)],
            1024,
        )
    }

    /// The tables after `mv` cut off the search of `pos` and the other moves did not.
    pub open spec fn update(
        self,
        pos: Position,
        mv: Move,
        quiets: Seq<Move>,
        tactics: Seq<Move>,
        depth: int,
    ) -> Tables {
        let board = pos.board;
        let gain = lesson(depth);
        if mv.tactic {
            Tables {
                tactic: teach_all(
                    teach(self.tactic, tactic_key(board, mv), gain),
                    tactic_keys(board, tactics),
                    -gain,
                ),
                ..self
            }
        } else {
            Tables {
                quiet: teach_all(
                    teach(self.quiet, quiet_key(board, mv), gain),
                    quiet_keys(board, quiets),
                    -gain,
                ),
                cont_oneply: match pos.prev {
                    Some(prev) => teach_all(
                        teach(self.cont_oneply, cont_key(board, prev, mv), gain),
                        cont_keys(board, prev, quiets),
                        -gain,
                    ),
                    None => self.cont_oneply,
                },
                tactic: teach_all(self.tactic, tactic_keys(board, tactics), -gain),
                ..self
            }
        }
    }

    /// The tables after a search of `board` returned `score` where the static
    /// evaluation was `static_eval`.
    pub open spec fn update_corr(self, board: Board, depth: int, score: int, static_eval: int) -> Tables {
        let amount = correction(depth, score, static_eval);
        Tables {
            pawn_corr: correct(self.pawn_corr, corr_key(board.stm, board.pawn_hash), amount),
            minor_corr: correct(self.minor_corr, corr_key(board.stm, board.minor_hash), amount),
            major_corr: correct(self.major_corr, corr_key(board.stm, board.major_hash), amount),
            white_nonpawn_corr: correct(
                self.white_nonpawn_corr,
                corr_key(board.stm, board.white_nonpawn_hash),
                amount,
            ),
            black_nonpawn_corr: correct(
                self.black_nonpawn_corr,
                corr_key(board.stm, board.black_nonpawn_hash),
                amount,
            ),
            ..self
        }
    }
}

/// A piece stands where each of the moves starts.
pub open spec fn all_have_piece(board: Board, moves: Seq<Move>) -> bool {
    forall|i: int| 0 <= i < moves.len() ==> board.spec_piece_on((#[trigger] moves[i]).from) is Some
}

/// The moves that [`History::update`] can be told of: they lie on the board, and a
/// piece stands where a move starts whose piece the tables are indexed by.
pub open spec fn can_update(pos: Position, mv: Move, quiets: Seq<Move>, tactics: Seq<Move>) -> bool {
    &&& pos.wf()
    &&& mv.wf()
    &&& crate::board::all_on_board(quiets)
    &&& crate::board::all_on_board(tactics)
    &&& mv.tactic || pos.prev is Some ==> pos.board.spec_piece_on(mv.from) is Some
    &&& !mv.tactic && pos.prev is Some ==> all_have_piece(pos.board, quiets)
    &&& all_have_piece(pos.board, tactics)
}

/// The history and correction tables of one search thread.
pub struct History {
    /// side, from, from attacked, to, to attacked
    quiet: Vec<i16>,
    /// side, attacker, victim, to
    tactic: Vec<i16>,
    /// side, previous piece, previous target, piece, to
    cont_oneply: Vec<i16>,
    /// side, pawn hash
    pawn_corr: Vec<i16>,
    /// side, minor piece hash
    minor_corr: Vec<i16>,
    /// side, major piece hash
    major_corr: Vec<i16>,
    /// side, hash of the white pieces other than pawns
    white_nonpawn_corr: Vec<i16>,
    /// side, hash of the black pieces other than pawns
    black_nonpawn_corr: Vec<i16>,
}

impl View for History {
    type V = Tables;

    closed spec fn view(&self) -> Tables {
        Tables {
            quiet: self.quiet@,
            tactic: self.tactic@,
            cont_oneply: self.cont_oneply@,
            pawn_corr: self.pawn_corr@,
            minor_corr: self.minor_corr@,
            major_corr: self.major_corr@,
            white_nonpawn_corr: self.white_nonpawn_corr@,
            black_nonpawn_corr: self.black_nonpawn_corr@,
        }
    }
}

fn blank_table(len: usize) -> (t: Vec<i16>)
    ensures
        t@ == zeros(len as int),
{
    let mut t: Vec<i16> = Vec::with_capacity(len);
    while t.len() < len
        invariant
            t.len() <= len,
            forall|i: int| 0 <= i < t.len() ==> t@[i] == 0,
        decreases len - t.len(),
    {
        t.push(0);
    }
    assert(t@ =~= zeros(len as int));
    t
}

fn flag(b: bool) -> (i: usize)
    ensures
        i == bit(b),
        i < 2,
{
    if b {
        1
    } else {
        0
    }
}

fn corr_index(stm: Color, hash: u64) -> (i: usize)
    ensures
        i == corr_key(stm, hash),
        i < CORR_LEN,
{
    stm.index() * CORR_SIZE + (hash % 16384) as usize
}

fn cont_index(board: &Board, prev: (Piece, Move), mv: Move) -> (i: usize)
    requires
        prev.1.wf(),
        mv.wf(),
        board.spec_piece_on(mv.from) is Some,
    ensures
        i == cont_key(*board, prev, mv),
        i < CONT_LEN,
{
    let piece = board.piece_on(mv.from).unwrap();
    (((board.stm.index() * 6 + prev.0.index()) * 64 + prev.1.to as usize) * 6 + piece.index()) * 64
        + mv.to as usize
}

fn quiet_index(board: &Board, mv: Move) -> (i: usize)
    requires
        mv.wf(),
    ensures
        i == quiet_key(*board, mv),
        i < QUIET_LEN,
{
    (((board.stm.index() * 64 + mv.from as usize) * 2 + flag(board.is_attacked(mv.from))) * 64 + mv.to as usize) * 2
        + flag(board.is_attacked(mv.to))
}

fn tactic_index(board: &Board, mv: Move) -> (i: usize)
    requires
        mv.wf(),
        board.spec_piece_on(mv.from) is Some,
    ensures
        i == tactic_key(*board, mv),
        i < TACTIC_LEN,
{
    let attacker = board.piece_on(mv.from).unwrap();
    let victim = match board.piece_on(mv.to) {
        Some(piece) => piece,
        None => Piece::Pawn,
    };
    ((board.stm.index() * 6 + attacker.index()) * 6 + victim.index()) * 64 + mv.to as usize
}

impl History {
    /// Tables that have learned nothing.
    pub fn new() -> (h: Box<Self>)
        ensures
            h@ == Tables::blank(),
            h@.wf(),
    {
        Box::new(
            History {
                quiet: blank_table(QUIET_LEN),
                tactic: blank_table(TACTIC_LEN),
                cont_oneply: blank_table(CONT_LEN),
                pawn_corr: blank_table(CORR_LEN),
                minor_corr: blank_table(CORR_LEN),
                major_corr: blank_table(CORR_LEN),
                white_nonpawn_corr: blank_table(CORR_LEN),
                black_nonpawn_corr: blank_table(CORR_LEN),
            },
        )
    }

    /// Forgets everything.
    pub fn clear(&mut self)
        ensures
            final(self)@ == Tables::blank(),
            final(self)@.wf(),
    {
        self.quiet = blank_table(QUIET_LEN);
        self.tactic = blank_table(TACTIC_LEN);
        self.cont_oneply = blank_table(CONT_LEN);
        self.pawn_corr = blank_table(CORR_LEN);
        self.minor_corr = blank_table(CORR_LEN);
        self.major_corr = blank_table(CORR_LEN);
        self.white_nonpawn_corr = blank_table(CORR_LEN);
        self.black_nonpawn_corr = blank_table(CORR_LEN);
    }

    /// The score of a quiet move, before the two tables that it comes from are
    /// squeezed into one entry's width.
    pub fn quiet_total(&self, pos: &Position, mv: Move) -> (s: i32)
        requires
            self@.wf(),
            pos.wf(),
            mv.wf(),
            pos.prev is Some ==> pos.board.spec_piece_on(mv.from) is Some,
        ensures
            s == self@.score_quiet(*pos, mv),
            -2 * MAX_HIST_VALUE <= s <= 2 * MAX_HIST_VALUE,
    {
        let quiet: i32 = self.quiet[quiet_index(&pos.board, mv)] as i32;
        match pos.prev {
            Some(prev) => quiet + self.cont_oneply[cont_index(&pos.board, prev, mv)] as i32,
            None => quiet,
        }
    }

    /// The score by which a quiet move is ordered. Two entries that both stand at
    /// their upper bound have no sum of this width.
    pub fn score_quiet(&self, pos: &Position, mv: Move) -> (s: i16)
        requires
            self@.wf(),
            pos.wf(),
            mv.wf(),
            pos.prev is Some ==> pos.board.spec_piece_on(mv.from) is Some,
            self@.score_quiet(*pos, mv) <= i16::MAX,
        ensures
            s == self@.score_quiet(*pos, mv),
    {
        self.quiet_total(pos, mv) as i16
    }

    /// The score by which a tactical move is ordered: that of its attacker, its victim and
    /// its target.
    pub fn score_tactic(&self, board: &Board, mv: Move) -> (s: i16)
        requires
            self@.wf(),
            mv.wf(),
            board.spec_piece_on(mv.from) is Some,
        ensures
            s == self@.score_tactic(*board, mv),
    {
        self.tactic[tactic_index(board, mv)]
    }

    /// The correction of the static evaluation of a board.
    pub fn corr(&self, board: &Board) -> (c: i16)
        requires
            self@.wf(),
        ensures
            c == self@.corr(*board),
            -320 <= c <= 320,
    {
        let factor: i32 = 64;
        let pawn: i32 = self.pawn_corr[corr_index(board.stm, board.pawn_hash)] as i32;
        let minor: i32 = self.minor_corr[corr_index(board.stm, board.minor_hash)] as i32;
        let major: i32 = self.major_corr[corr_index(board.stm, board.major_hash)] as i32;
        let white: i32 = self.white_nonpawn_corr[corr_index(board.stm, board.white_nonpawn_hash)] as i32;
        let black: i32 = self.black_nonpawn_corr[corr_index(board.stm, board.black_nonpawn_hash)] as i32;
        let corr: i32 = pawn * factor + minor * factor + major * factor + white * factor + black * factor;
        (corr / MAX_CORR_VALUE) as i16
    }

    fn quiet_mut(&mut self, board: &Board, mv: Move) -> (entry: &mut i16)
        requires
            old(self)@.wf(),
            mv.wf(),
        ensures
            *entry == old(self)@.quiet[quiet_key(*board, mv)],
            final(self)@ == (Tables {
                quiet: old(self)@.quiet.update(quiet_key(*board, mv), *final(entry)),
                ..old(self)@
            }),
    {
        let i: usize = quiet_index(board, mv);
        &mut self.quiet[i]
    }

    fn tactic_mut(&mut self, board: &Board, mv: Move) -> (entry: &mut i16)
        requires
            old(self)@.wf(),
            mv.wf(),
            board.spec_piece_on(mv.from) is Some,
        ensures
            *entry == old(self)@.tactic[tactic_key(*board, mv)],
            final(self)@ == (Tables {
                tactic: old(self)@.tactic.update(tactic_key(*board, mv), *final(entry)),
                ..old(self)@
            }),
    {
        let i: usize = tactic_index(board, mv);
        &mut self.tactic[i]
    }

    fn cont_mut(&mut self, board: &Board, prev: (Piece, Move), mv: Move) -> (entry: &mut i16)
        requires
            old(self)@.wf(),
            prev.1.wf(),
            mv.wf(),
            board.spec_piece_on(mv.from) is Some,
        ensures
            *entry == old(self)@.cont_oneply[cont_key(*board, prev, mv)],
            final(self)@ == (Tables {
                cont_oneply: old(self)@.cont_oneply.update(cont_key(*board, prev, mv), *final(entry)),
                ..old(self)@
            }),
    {
        let i: usize = cont_index(board, prev, mv);
        &mut self.cont_oneply[i]
    }

    /// Rewards the move that cut off the search of `pos` and punishes the moves that
    /// were tried before it. Quiet moves are punished only where the cutoff was quiet.
    pub fn update(&mut self, pos: &Position, mv: Move, quiets: &[Move], tactics: &[Move], depth: i16)
        requires
            old(self)@.wf(),
            can_update(*pos, mv, quiets@, tactics@),
        ensures
            final(self)@ == old(self)@.update(*pos, mv, quiets@, tactics@, depth as int),
            final(self)@.wf(),
    {
        let board = &pos.board;
        let ghost start = self@;
        let ghost gain = lesson(depth as int);

        let bonus_base: i32 = 128;
        let bonus_scale: i32 = 128;
        let bonus_max: i32 = 2048;
        let scaled: i32 = bonus_base + (depth as i32) * bonus_scale;
        let bonus: i32 = if scaled < bonus_max { scaled } else { bonus_max };

        let malus_base: i32 = 128;
        let malus_scale: i32 = 128;
        let malus_max: i32 = 2048;
        let scaled: i32 = malus_base + (depth as i32) * malus_scale;
        let malus: i32 = if scaled < malus_max { scaled } else { malus_max };

        if mv.tactic {
            Self::update_value(self.tactic_mut(board, mv), bonus);
            proof {
                lemma_teach(start.tactic, tactic_key(*board, mv), gain);
            }
        } else {
            Self::update_value(self.quiet_mut(board, mv), bonus);
            proof {
                lemma_teach(start.quiet, quiet_key(*board, mv), gain);
            }
            if let Some(prev) = pos.prev {
                Self::update_value(self.cont_mut(board, prev, mv), bonus);
                proof {
                    lemma_teach(start.cont_oneply, cont_key(*board, prev, mv), gain);
                }
            }
            let ghost rewarded = self@;

            let mut i: usize = 0;
            while i < quiets.len()
                invariant
                    i <= quiets.len(),
                    board == &pos.board,
                    pos.wf(),
                    malus == gain,
                    i32::MIN < malus,
                    crate::board::all_on_board(quiets@),
                    pos.prev is Some ==> all_have_piece(pos.board, quiets@),
                    rewarded.wf(),
                    self@.wf(),
                    self@.quiet == teach_all(
                        rewarded.quiet,
                        quiet_keys(*board, quiets@).take(i as int),
                        -gain,
                    ),
                    self@.cont_oneply == (match pos.prev {
                        Some(prev) => teach_all(
                            rewarded.cont_oneply,
                            cont_keys(*board, prev, quiets@).take(i as int),
                            -gain,
                        ),
                        None => rewarded.cont_oneply,
                    }),
                    self@ == (Tables {
                        quiet: self@.quiet,
                        cont_oneply: self@.cont_oneply,
                        ..rewarded
                    }),
                decreases quiets.len() - i,
            {
                let quiet = quiets[i];
                let ghost before = self@;
                Self::update_value(self.quiet_mut(board, quiet), -malus);
                proof {
                    lemma_teach(before.quiet, quiet_key(*board, quiet), -gain);
                    lemma_teach_next(rewarded.quiet, quiet_keys(*board, quiets@), i as int, -gain);
                }
                if let Some(prev) = pos.prev {
                    Self::update_value(self.cont_mut(board, prev, quiet), -malus);
                    proof {
                        lemma_teach(before.cont_oneply, cont_key(*board, prev, quiet), -gain);
                        lemma_teach_next(
                            rewarded.cont_oneply,
                            cont_keys(*board, prev, quiets@),
                            i as int,
                            -gain,
                        );
                    }
                }
                i += 1;
            }
            proof {
                let keys = quiet_keys(*board, quiets@);
                assert(keys.take(keys.len() as int) =~= keys);
                if let Some(prev) = pos.prev {
                    let keys = cont_keys(*board, prev, quiets@);
                    assert(keys.take(keys.len() as int) =~= keys);
                }
            }
        }
        let ghost settled = self@;

        let mut i: usize = 0;
        while i < tactics.len()
            invariant
                i <= tactics.len(),
                board == &pos.board,
                malus == gain,
                i32::MIN < malus,
                crate::board::all_on_board(tactics@),
                all_have_piece(pos.board, tactics@),
                settled.wf(),
                self@.wf(),
                self@ == (Tables {
                    tactic: teach_all(
                        settled.tactic,
                        tactic_keys(*board, tactics@).take(i as int),
                        -gain,
                    ),
                    ..settled
                }),
            decreases tactics.len() - i,
        {
            let tactic = tactics[i];
            let ghost before = self@;
            Self::update_value(self.tactic_mut(board, tactic), -malus);
            proof {
                lemma_teach(before.tactic, tactic_key(*board, tactic), -gain);
                lemma_teach_next(settled.tactic, tactic_keys(*board, tactics@), i as int, -gain);
            }
            i += 1;
        }
        proof {
            let keys = tactic_keys(*board, tactics@);
            assert(keys.take(keys.len() as int) =~= keys);
        }
    }

    /// Moves the corrections of a board toward the error of its static evaluation.
    pub fn update_corr(&mut self, board: &Board, depth: i16, score: Score, static_eval: Score)
        requires
            old(self)@.wf(),
        ensures
            final(self)@ == old(self)@.update_corr(
                *board,
                depth as int,
                score.0 as int,
                static_eval.0 as int,
            ),
            final(self)@.wf(),
    {
        let ghost start = self@;
        let bonus_scale: i64 = 128;
        let delta: i64 = score.0 as i64 - static_eval.0 as i64;
        assert(-65535 * 32768 <= delta * depth <= 65535 * 32768) by (nonlinear_arith)
            requires
                -65535 <= delta <= 65535,
                -32768 <= depth <= 32767,
        ;
        let amount: i64 = (delta * (depth as i64) * bonus_scale) / 1024;
        assert(amount == correction(depth as int, score.0 as int, static_eval.0 as int));
        let amount: i32 = amount as i32;

        let i: usize = corr_index(board.stm, board.pawn_hash);
        Self::update_corr_val(&mut self.pawn_corr[i], amount);
        let i: usize = corr_index(board.stm, board.minor_hash);
        Self::update_corr_val(&mut self.minor_corr[i], amount);
        let i: usize = corr_index(board.stm, board.major_hash);
        Self::update_corr_val(&mut self.major_corr[i], amount);
        let i: usize = corr_index(board.stm, board.white_nonpawn_hash);
        Self::update_corr_val(&mut self.white_nonpawn_corr[i], amount);
        let i: usize = corr_index(board.stm, board.black_nonpawn_hash);
        Self::update_corr_val(&mut self.black_nonpawn_corr[i], amount);
        proof {
            let a = amount as int;
            lemma_correct(start.pawn_corr, corr_key(board.stm, board.pawn_hash), a);
            lemma_correct(start.minor_corr, corr_key(board.stm, board.minor_hash), a);
            lemma_correct(start.major_corr, corr_key(board.stm, board.major_hash), a);
            lemma_correct(start.white_nonpawn_corr, corr_key(board.stm, board.white_nonpawn_hash), a);
            lemma_correct(start.black_nonpawn_corr, corr_key(board.stm, board.black_nonpawn_hash), a);
        }
    }

    /// Teaches an entry of a move table.
    pub fn update_value(value: &mut i16, amount: i32)
        ensures
            *final(value) == learned(*old(value) as int, amount as int),
    {
        let amount: i32 = if amount < -MAX_HIST_VALUE {
            -MAX_HIST_VALUE
        } else if amount > MAX_HIST_VALUE {
            MAX_HIST_VALUE
        } else {
            amount
        };
        let size: i32 = if amount < 0 { -amount } else { amount };
        let before: i32 = *value as i32;
        proof {
            lemma_gravity(before as int, amount as int, MAX_HIST_VALUE as int);
        }
        let decay: i32 = before * size / MAX_HIST_VALUE;
        *value = (before + amount - decay) as i16;
    }

    /// Teaches an entry of a correction table.
    pub fn update_corr_val(value: &mut i16, amount: i32)
        ensures
            *final(value) == corrected(*old(value) as int, amount as int),
    {
        let bound: i32 = MAX_CORR_VALUE / 4;
        let amount: i32 = if amount < -bound {
            -bound
        } else if amount > bound {
            bound
        } else {
            amount
        };
        let size: i32 = if amount < 0 { -amount } else { amount };
        let before: i32 = *value as i32;
        proof {
            lemma_gravity(before as int, amount as int, MAX_CORR_VALUE as int);
        }
        let decay: i32 = before * size / MAX_CORR_VALUE;
        *value = (before + amount - decay) as i16;
    }
}

/// A step keeps an entry within its bound, and any entry within its width.
proof fn lemma_gravity(value: int, amount: int, limit: int)
    requires
        i16::MIN <= value <= i16::MAX,
        limit == MAX_CORR_VALUE && -256 <= amount <= 256
            || limit == MAX_HIST_VALUE && -MAX_HIST_VALUE <= amount <= MAX_HIST_VALUE,
    ensures
        i16::MIN <= gravity(value, amount, limit) <= i16::MAX,
        -limit <= value <= limit ==> -limit <= gravity(value, amount, limit) <= limit,
        i32::MIN <= value * math::abs(amount) <= i32::MAX,
{
    let v = math::abs(value);
    let a = math::abs(amount);
    lemma_decay(v, a, limit);
    assert(v * a <= 32768 * 16384) by (nonlinear_arith)
        requires
            0 <= v <= 32768,
            0 <= a <= 16384,
    ;
    assert(value * a == v * a || value * a == -(v * a)) by (nonlinear_arith)
        requires
            v == value || v == -value,
    ;
    assert(value < 0 ==> value * a == -(v * a)) by (nonlinear_arith)
        requires
            value < 0 ==> v == -value,
    ;
    assert(value >= 0 ==> value * a == v * a) by (nonlinear_arith)
        requires
            value >= 0 ==> v == value,
    ;
    assert(value < 0 && v * a == 0 ==> (v * a) / limit == 0);
}

proof fn lemma_teach(table: Seq<i16>, key: int, amount: int)
    requires
        bounded(table, table.len() as int, MAX_HIST_VALUE as int),
        0 <= key < table.len(),
    ensures
        bounded(teach(table, key, amount), table.len() as int, MAX_HIST_VALUE as int),
        teach(table, key, amount)[key] == learned(table[key] as int, amount),
{
    let a = math::clamp(amount, -MAX_HIST_VALUE as int, MAX_HIST_VALUE as int);
    lemma_gravity(table[key] as int, a, MAX_HIST_VALUE as int);
}

proof fn lemma_teach_next(table: Seq<i16>, keys: Seq<int>, i: int, amount: int)
    requires
        0 <= i < keys.len(),
    ensures
        teach_all(table, keys.take(i + 1), amount) == teach(
            teach_all(table, keys.take(i), amount),
            keys[i],
            amount,
        ),
{
    assert(keys.take(i + 1).drop_last() =~= keys.take(i));
}

proof fn lemma_correct(table: Seq<i16>, key: int, amount: int)
    requires
        bounded(table, table.len() as int, MAX_CORR_VALUE as int),
        0 <= key < table.len(),
    ensures
        bounded(correct(table, key, amount), table.len() as int, MAX_CORR_VALUE as int),
        correct(table, key, amount)[key] == corrected(table[key] as int, amount),
{
    lemma_gravity(table[key] as int, math::clamp(amount, -256, 256), MAX_CORR_VALUE as int);
}

/// A reward never lowers an entry and a punishment never raises one; an entry that is not
/// at its bound yet does move. A lesson of size zero changes nothing.
pub proof fn law_lesson_direction(value: int, amount: int)
    requires
        -MAX_HIST_VALUE <= value <= MAX_HIST_VALUE,
    ensures
        amount >= 0 ==> learned(value, amount) >= value,
        amount <= 0 ==> learned(value, amount) <= value,
        amount > 0 && value < MAX_HIST_VALUE ==> learned(value, amount) > value,
        amount < 0 && value > -MAX_HIST_VALUE ==> learned(value, amount) < value,
        learned(value, 0) == value,
        -MAX_HIST_VALUE <= learned(value, amount) <= MAX_HIST_VALUE,
{
    let a = math::clamp(amount, -MAX_HIST_VALUE as int, MAX_HIST_VALUE as int);
    lemma_gravity(value, a, MAX_HIST_VALUE as int);
    lemma_gravity_direction(value, a, MAX_HIST_VALUE as int);
    lemma_gravity_direction(value, 0, MAX_HIST_VALUE as int);
}

/// A correction never moves an entry away from the error that it answers; an entry that is
/// not at its bound yet moves toward it.
pub proof fn law_correction_direction(value: int, amount: int)
    requires
        -MAX_CORR_VALUE <= value <= MAX_CORR_VALUE,
    ensures
        amount >= 0 ==> corrected(value, amount) >= value,
        amount <= 0 ==> corrected(value, amount) <= value,
        amount > 0 && value < MAX_CORR_VALUE ==> corrected(value, amount) > value,
        amount < 0 && value > -MAX_CORR_VALUE ==> corrected(value, amount) < value,
        corrected(value, 0) == value,
        -MAX_CORR_VALUE <= corrected(value, amount) <= MAX_CORR_VALUE,
{
    let a = math::clamp(amount, -256, 256);
    lemma_gravity(value, a, MAX_CORR_VALUE as int);
    lemma_gravity_direction(value, a, MAX_CORR_VALUE as int);
    lemma_gravity_direction(value, 0, MAX_CORR_VALUE as int);
}

proof fn lemma_gravity_direction(value: int, amount: int, limit: int)
    requires
        0 < limit,
        -limit <= value <= limit,
        -limit <= amount <= limit,
    ensures
        amount >= 0 ==> gravity(value, amount, limit) >= value,
        amount <= 0 ==> gravity(value, amount, limit) <= value,
        amount > 0 && value < limit ==> gravity(value, amount, limit) > value,
        amount < 0 && value > -limit ==> gravity(value, amount, limit) < value,
{
    let v = math::abs(value);
    let a = math::abs(amount);
    lemma_decay(v, a, limit);
    assert(value < 0 ==> value * a == -(v * a)) by (nonlinear_arith)
        requires
            value < 0 ==> v == -value,
    ;
    if a > 0 && v < limit {
        let q = (v * a) / limit;
        assert(q * limit <= v * a) by (nonlinear_arith)
            requires
                q == (v * a) / limit,
                0 < limit,
        ;
        assert(q < a) by (nonlinear_arith)
            requires
                q * limit <= v * a,
                0 < a,
                v < limit,
                0 < limit,
        ;
    }
}

proof fn lemma_gravity_mirrors(value: int, amount: int, limit: int)
    requires
        0 < limit,
    ensures
        gravity(-value, -amount, limit) == -gravity(value, amount, limit),
{
    let a = math::abs(amount);
    assert((-value) * a == -(value * a)) by (nonlinear_arith);
    assert(0int / limit == 0) by (nonlinear_arith)
        requires
            0 < limit,
    ;
}

/// Rewards and punishments mirror each other: what one makes of an entry, the other makes
/// of its opposite. So do corrections up and down.
pub proof fn law_lessons_mirror(value: int, amount: int)
    ensures
        learned(-value, -amount) == -learned(value, amount),
        corrected(-value, -amount) == -corrected(value, amount),
{
    let limit = MAX_HIST_VALUE as int;
    lemma_gravity_mirrors(value, math::clamp(amount, -limit, limit), limit);
    lemma_gravity_mirrors(value, math::clamp(amount, -256, 256), MAX_CORR_VALUE as int);
}

/// The larger the entry, the larger what a lesson leaves of it: lessons keep the
/// order of two entries.
pub proof fn law_lesson_keeps_order(low: int, high: int, amount: int)
    requires
        -MAX_HIST_VALUE <= low <= high <= MAX_HIST_VALUE,
    ensures
        learned(low, amount) <= learned(high, amount),
{
    let limit = MAX_HIST_VALUE as int;
    let a = math::abs(math::clamp(amount, -limit, limit));
    lemma_shares(low, high, a, limit);
}

/// Rounded toward zero, the shares of two values differ by no more than the values.
proof fn lemma_shares(low: int, high: int, a: int, limit: int)
    requires
        0 < limit,
        0 <= a <= limit,
        low <= high,
    ensures
        math::trunc_div(high * a, limit) - math::trunc_div(low * a, limit) <= high - low,
{
    if low >= 0 {
        lemma_floor_step(low, high, a, limit);
    } else if high <= 0 {
        lemma_floor_step(-high, -low, a, limit);
        assert((-high) * a == -(high * a)) by (nonlinear_arith);
        assert((-low) * a == -(low * a)) by (nonlinear_arith);
        assert(low * a <= 0 && high * a <= 0) by (nonlinear_arith)
            requires
                low <= 0,
                high <= 0,
                0 <= a,
        ;
        assert(0int / limit == 0) by (nonlinear_arith)
            requires
                0 < limit,
        ;
    } else {
        lemma_decay(high, a, limit);
        lemma_decay(-low, a, limit);
        assert((-low) * a == -(low * a)) by (nonlinear_arith);
        assert(low * a <= 0 && high * a >= 0) by (nonlinear_arith)
            requires
                low <= 0,
                high >= 0,
                0 <= a,
        ;
    }
}

proof fn lemma_floor_step(x: int, y: int, a: int, limit: int)
    requires
        0 < limit,
        0 <= a <= limit,
        0 <= x <= y,
    ensures
        (y * a) / limit - (x * a) / limit <= y - x,
        0 <= x * a,
        0 <= y * a,
{
    assert(0 <= x * a && 0 <= y * a) by (nonlinear_arith)
        requires
            0 <= x <= y,
            0 <= a,
    ;
    let p = (x * a) / limit;
    let q = (y * a) / limit;
    assert(p * limit <= x * a < p * limit + limit) by (nonlinear_arith)
        requires
            p == (x * a) / limit,
            0 < limit,
    ;
    assert(q * limit <= y * a < q * limit + limit) by (nonlinear_arith)
        requires
            q == (y * a) / limit,
            0 < limit,
    ;
    assert(q - p <= y - x) by (nonlinear_arith)
        requires
            q * limit <= y * a,
            x * a < p * limit + limit,
            x <= y,
            0 <= a <= limit,
            0 < limit,
    ;
}

/// Each entry of the quiet table belongs to one combination of side, squares and
/// attacks.
pub proof fn law_quiet_entries_are_separate(
    stm: Color,
    from: int,
    from_attacked: bool,
    to: int,
    to_attacked: bool,
    stm2: Color,
    from2: int,
    from_attacked2: bool,
    to2: int,
    to_attacked2: bool,
)
    requires
        0 <= from < 64,
        0 <= to < 64,
        0 <= from2 < 64,
        0 <= to2 < 64,
    ensures
        0 <= quiet_slot(stm, from, from_attacked, to, to_attacked) < QUIET_LEN,
        quiet_slot(stm, from, from_attacked, to, to_attacked) == quiet_slot(
            stm2,
            from2,
            from_attacked2,
            to2,
            to_attacked2,
        ) ==> stm == stm2 && from == from2 && from_attacked == from_attacked2 && to == to2 && to_attacked
            == to_attacked2,
{
}

/// Each entry of the tactic table belongs to one side, attacker, victim and target.
pub proof fn law_tactic_entries_are_separate(
    stm: Color,
    attacker: Piece,
    victim: Piece,
    to: int,
    stm2: Color,
    attacker2: Piece,
    victim2: Piece,
    to2: int,
)
    requires
        0 <= to < 64,
        0 <= to2 < 64,
    ensures
        0 <= tactic_slot(stm, attacker, victim, to) < TACTIC_LEN,
        tactic_slot(stm, attacker, victim, to) == tactic_slot(stm2, attacker2, victim2, to2) ==> stm == stm2
            && attacker == attacker2 && victim == victim2 && to == to2,
{
}

/// Each entry of the continuation table belongs to one side and one pair of moves.
pub proof fn law_cont_entries_are_separate(
    stm: Color,
    prev: Piece,
    prev_to: int,
    piece: Piece,
    to: int,
    stm2: Color,
    prev2: Piece,
    prev_to2: int,
    piece2: Piece,
    to2: int,
)
    requires
        0 <= prev_to < 64,
        0 <= to < 64,
        0 <= prev_to2 < 64,
        0 <= to2 < 64,
    ensures
        0 <= cont_slot(stm, prev, prev_to, piece, to) < CONT_LEN,
        cont_slot(stm, prev, prev_to, piece, to) == cont_slot(stm2, prev2, prev_to2, piece2, to2) ==> stm
            == stm2 && prev == prev2 && prev_to == prev_to2 && piece == piece2 && to == to2,
{
}

/// Tables that have learned nothing have no opinion.
pub proof fn law_blank_tables_score_nothing(pos: Position, mv: Move)
    requires
        pos.wf(),
        mv.wf(),
    ensures
        Tables::blank().wf(),
        Tables::blank().score_quiet(pos, mv) == 0,
        Tables::blank().score_tactic(pos.board, mv) == 0,
        Tables::blank().corr(pos.board) == 0,
{
}

proof fn lemma_teach_all_elsewhere(table: Seq<i16>, keys: Seq<int>, amount: int, i: int)
    requires
        0 <= i < table.len(),
        !keys.contains(i),
        forall|j: int| 0 <= j < keys.len() ==> 0 <= #[trigger] keys[j] < table.len(),
    ensures
        teach_all(table, keys, amount).len() == table.len(),
        teach_all(table, keys, amount)[i] == table[i],
    decreases keys.len(),
{
    if keys.len() > 0 {
        let rest = keys.drop_last();
        assert(keys.contains(keys.last()));
        assert forall|j: int| 0 <= j < rest.len() implies 0 <= #[trigger] rest[j] < table.len() by {
            assert(rest[j] == keys[j]);
        }
        if rest.contains(i) {
            let j = choose|j: int| 0 <= j < rest.len() && rest[j] == i;
            assert(keys[j] == i);
        }
        lemma_teach_all_elsewhere(table, rest, amount, i);
    }
}

/// The move that cut off the search gains exactly one lesson, unless the very same
/// entry is also punished.
pub proof fn law_cutoff_move_is_rewarded(
    tables: Tables,
    pos: Position,
    mv: Move,
    quiets: Seq<Move>,
    tactics: Seq<Move>,
    depth: int,
)
    requires
        tables.wf(),
        can_update(pos, mv, quiets, tactics),
    ensures
        !mv.tactic && !quiet_keys(pos.board, quiets).contains(quiet_key(pos.board, mv)) ==> tables.update(
            pos,
            mv,
            quiets,
            tactics,
            depth,
        ).quiet[quiet_key(pos.board, mv)] == learned(
            tables.quiet[quiet_key(pos.board, mv)] as int,
            lesson(depth),
        ),
        mv.tactic && !tactic_keys(pos.board, tactics).contains(tactic_key(pos.board, mv)) ==> tables.update(
            pos,
            mv,
            quiets,
            tactics,
            depth,
        ).tactic[tactic_key(pos.board, mv)] == learned(
            tables.tactic[tactic_key(pos.board, mv)] as int,
            lesson(depth),
        ),
{
    let board = pos.board;
    if !mv.tactic {
        lemma_teach(tables.quiet, quiet_key(board, mv), lesson(depth));
        if !quiet_keys(board, quiets).contains(quiet_key(board, mv)) {
            lemma_teach_all_elsewhere(
                teach(tables.quiet, quiet_key(board, mv), lesson(depth)),
                quiet_keys(board, quiets),
                -lesson(depth),
                quiet_key(board, mv),
            );
        }
    } else {
        lemma_teach(tables.tactic, tactic_key(board, mv), lesson(depth));
        if !tactic_keys(board, tactics).contains(tactic_key(board, mv)) {
            lemma_teach_all_elsewhere(
                teach(tables.tactic, tactic_key(board, mv), lesson(depth)),
                tactic_keys(board, tactics),
                -lesson(depth),
                tactic_key(board, mv),
            );
        }
    }
}

/// A cutoff by a capture says nothing of the captures of other pieces, nor of those by
/// other pieces, of the other side or on other squares: their scores stay, on whatever
/// board they are made.
pub proof fn law_other_captures_are_not_taught(
    tables: Tables,
    pos: Position,
    mv: Move,
    quiets: Seq<Move>,
    depth: int,
    board: Board,
    other: Move,
)
    requires
        tables.wf(),
        can_update(pos, mv, quiets, Seq::empty()),
        other.wf(),
        board.spec_piece_on(other.from) is Some,
        ({
            ||| victim(board, other) != victim(pos.board, mv)
            ||| board.spec_piece_on(other.from) != pos.board.spec_piece_on(mv.from)
            ||| board.stm != pos.board.stm
            ||| other.to != mv.to
        }),
    ensures
        tables.update(pos, mv, quiets, Seq::empty(), depth).score_tactic(board, other) == tables.score_tactic(
            board,
            other,
        ),
{
    assert(tactic_keys(pos.board, Seq::empty()).len() == 0);
    if mv.tactic {
        law_tactic_entries_are_separate(
            pos.board.stm,
            pos.board.spec_piece_on(mv.from).unwrap(),
            victim(pos.board, mv),
            mv.to as int,
            board.stm,
            board.spec_piece_on(other.from).unwrap(),
            victim(board, other),
            other.to as int,
        );
    }
}

/// The quiet table leaves alone every move that a cutoff did not speak of: neither the move
/// that cut off nor one of the quiet moves that were tried before it. After a tactical cutoff
/// it leaves all of them alone.
pub proof fn law_untold_quiet_moves_are_left_alone(
    tables: Tables,
    pos: Position,
    mv: Move,
    quiets: Seq<Move>,
    tactics: Seq<Move>,
    depth: int,
    other: Move,
)
    requires
        tables.wf(),
        can_update(pos, mv, quiets, tactics),
        other.wf(),
        mv.tactic || !same_squares(other, mv),
        mv.tactic || forall|i: int| 0 <= i < quiets.len() ==> !same_squares(other, #[trigger] quiets[i]),
    ensures
        tables.update(pos, mv, quiets, tactics, depth).quiet[quiet_key(pos.board, other)] == tables.quiet[quiet_key(
            pos.board,
            other,
        )],
{
    let board = pos.board;
    let key = quiet_key(board, other);
    if !mv.tactic {
        let gain = lesson(depth);
        let keys = quiet_keys(board, quiets);
        lemma_quiet_keys_differ(board, mv, other);
        assert forall|j: int| 0 <= j < keys.len() implies 0 <= #[trigger] keys[j] < QUIET_LEN && keys[j] != key by {
            assert(quiets[j].wf());
            lemma_quiet_keys_differ(board, quiets[j], other);
        }
        lemma_teach_all_elsewhere(teach(tables.quiet, quiet_key(board, mv), gain), keys, -gain, key);
    }
}

/// The moves go between the same squares.
pub open spec fn same_squares(a: Move, b: Move) -> bool {
    a.from == b.from && a.to == b.to
}

proof fn lemma_quiet_keys_differ(board: Board, a: Move, b: Move)
    requires
        a.wf(),
        b.wf(),
        !same_squares(b, a),
    ensures
        0 <= quiet_key(board, a) < QUIET_LEN,
        quiet_key(board, a) != quiet_key(board, b),
{
    law_quiet_entries_are_separate(
        board.stm,
        a.from as int,
        board.spec_is_attacked(a.from),
        a.to as int,
        board.spec_is_attacked(a.to),
        board.stm,
        b.from as int,
        board.spec_is_attacked(b.from),
        b.to as int,
        board.spec_is_attacked(b.to),
    );
}

/// A cutoff teaches only the side to move: no entry of the other side changes.
pub proof fn law_update_leaves_the_other_side(
    tables: Tables,
    pos: Position,
    mv: Move,
    quiets: Seq<Move>,
    tactics: Seq<Move>,
    depth: int,
    i: int,
)
    requires
        tables.wf(),
        can_update(pos, mv, quiets, tactics),
    ensures
        0 <= i < QUIET_LEN && i / 16384 != pos.board.stm.slot() ==> tables.update(
            pos,
            mv,
            quiets,
            tactics,
            depth,
        ).quiet[i] == tables.quiet[i],
        0 <= i < TACTIC_LEN && i / 2304 != pos.board.stm.slot() ==> tables.update(
            pos,
            mv,
            quiets,
            tactics,
            depth,
        ).tactic[i] == tables.tactic[i],
        0 <= i < CONT_LEN && i / 147456 != pos.board.stm.slot() ==> tables.update(
            pos,
            mv,
            quiets,
            tactics,
            depth,
        ).cont_oneply[i] == tables.cont_oneply[i],
{
    let board = pos.board;
    let gain = lesson(depth);
    if 0 <= i < QUIET_LEN && i / 16384 != board.stm.slot() && !mv.tactic {
        let taught = teach(tables.quiet, quiet_key(board, mv), gain);
        assert forall|j: int| 0 <= j < quiets.len() implies 0 <= #[trigger] quiet_keys(board, quiets)[j] < QUIET_LEN
            && quiet_keys(board, quiets)[j] != i by {
            assert(quiets[j].wf());
        }
        lemma_teach_all_elsewhere(taught, quiet_keys(board, quiets), -gain, i);
    }
    if 0 <= i < TACTIC_LEN && i / 2304 != board.stm.slot() {
        let taught = teach(tables.tactic, tactic_key(board, mv), gain);
        assert forall|j: int|
            0 <= j < tactics.len() implies 0 <= #[trigger] tactic_keys(board, tactics)[j] < TACTIC_LEN
            && tactic_keys(board, tactics)[j] != i by {
            assert(tactics[j].wf());
        }
        lemma_teach_all_elsewhere(taught, tactic_keys(board, tactics), -gain, i);
        lemma_teach_all_elsewhere(tables.tactic, tactic_keys(board, tactics), -gain, i);
    }
    if 0 <= i < CONT_LEN && i / 147456 != board.stm.slot() && !mv.tactic {
        if let Some(prev) = pos.prev {
            let taught = teach(tables.cont_oneply, cont_key(board, prev, mv), gain);
            assert forall|j: int|
                0 <= j < quiets.len() implies 0 <= #[trigger] cont_keys(board, prev, quiets)[j] < CONT_LEN
                && cont_keys(board, prev, quiets)[j] != i by {
                assert(quiets[j].wf());
            }
            lemma_teach_all_elsewhere(taught, cont_keys(board, prev, quiets), -gain, i);
        }
    }
}

proof fn lemma_teach_all_bounded(table: Seq<i16>, keys: Seq<int>, amount: int)
    requires
        bounded(table, table.len() as int, MAX_HIST_VALUE as int),
        forall|j: int| 0 <= j < keys.len() ==> 0 <= #[trigger] keys[j] < table.len(),
    ensures
        bounded(teach_all(table, keys, amount), table.len() as int, MAX_HIST_VALUE as int),
    decreases keys.len(),
{
    if keys.len() > 0 {
        let rest = keys.drop_last();
        assert forall|j: int| 0 <= j < rest.len() implies 0 <= #[trigger] rest[j] < table.len() by {
            assert(rest[j] == keys[j]);
        }
        lemma_teach_all_bounded(table, rest, amount);
        lemma_teach(teach_all(table, rest, amount), keys.last(), amount);
    }
}

/// No cutoff drives an entry past its bound.
pub proof fn law_update_keeps_bounds(
    tables: Tables,
    pos: Position,
    mv: Move,
    quiets: Seq<Move>,
    tactics: Seq<Move>,
    depth: int,
)
    requires
        tables.wf(),
        can_update(pos, mv, quiets, tactics),
    ensures
        tables.update(pos, mv, quiets, tactics, depth).wf(),
{
    let board = pos.board;
    let gain = lesson(depth);
    assert forall|j: int| 0 <= j < tactics.len() implies 0 <= #[trigger] tactic_keys(board, tactics)[j]
        < TACTIC_LEN by {
        assert(tactics[j].wf());
    }
    assert forall|j: int| 0 <= j < quiets.len() implies 0 <= #[trigger] quiet_keys(board, quiets)[j]
        < QUIET_LEN by {
        assert(quiets[j].wf());
    }
    if mv.tactic {
        lemma_teach(tables.tactic, tactic_key(board, mv), gain);
        lemma_teach_all_bounded(
            teach(tables.tactic, tactic_key(board, mv), gain),
            tactic_keys(board, tactics),
            -gain,
        );
    } else {
        lemma_teach(tables.quiet, quiet_key(board, mv), gain);
        lemma_teach_all_bounded(
            teach(tables.quiet, quiet_key(board, mv), gain),
            quiet_keys(board, quiets),
            -gain,
        );
        lemma_teach_all_bounded(tables.tactic, tactic_keys(board, tactics), -gain);
        if let Some(prev) = pos.prev {
            assert forall|j: int|
                0 <= j < quiets.len() implies 0 <= #[trigger] cont_keys(board, prev, quiets)[j] < CONT_LEN by {
                assert(quiets[j].wf());
            }
            lemma_teach(tables.cont_oneply, cont_key(board, prev, mv), gain);
            lemma_teach_all_bounded(
                teach(tables.cont_oneply, cont_key(board, prev, mv), gain),
                cont_keys(board, prev, quiets),
                -gain,
            );
        }
    }
}

/// No correction drives an entry past its bound.
pub proof fn law_update_corr_keeps_bounds(
    tables: Tables,
    board: Board,
    depth: int,
    score: int,
    static_eval: int,
)
    requires
        tables.wf(),
    ensures
        tables.update_corr(board, depth, score, static_eval).wf(),
{
    let a = correction(depth, score, static_eval);
    lemma_correct(tables.pawn_corr, corr_key(board.stm, board.pawn_hash), a);
    lemma_correct(tables.minor_corr, corr_key(board.stm, board.minor_hash), a);
    lemma_correct(tables.major_corr, corr_key(board.stm, board.major_hash), a);
    lemma_correct(tables.white_nonpawn_corr, corr_key(board.stm, board.white_nonpawn_hash), a);
    lemma_correct(tables.black_nonpawn_corr, corr_key(board.stm, board.black_nonpawn_hash), a);
}

/// A correction touches one entry per table, that of the board's own hash.
pub proof fn law_correction_is_local(
    tables: Tables,
    board: Board,
    depth: int,
    score: int,
    static_eval: int,
    i: int,
)
    requires
        tables.wf(),
        0 <= i < CORR_LEN,
    ensures
        i != corr_key(board.stm, board.pawn_hash) ==> tables.update_corr(board, depth, score, static_eval).pawn_corr[i]
            == tables.pawn_corr[i],
        i != corr_key(board.stm, board.minor_hash) ==> tables.update_corr(board, depth, score, static_eval).minor_corr[i]
            == tables.minor_corr[i],
        i != corr_key(board.stm, board.major_hash) ==> tables.update_corr(board, depth, score, static_eval).major_corr[i]
            == tables.major_corr[i],
        i != corr_key(board.stm, board.white_nonpawn_hash) ==> tables.update_corr(
            board,
            depth,
            score,
            static_eval,
        ).white_nonpawn_corr[i] == tables.white_nonpawn_corr[i],
        i != corr_key(board.stm, board.black_nonpawn_hash) ==> tables.update_corr(
            board,
            depth,
            score,
            static_eval,
        ).black_nonpawn_corr[i] == tables.black_nonpawn_corr[i],
{
}

} // verus!
