//! What the search reads of a chess position, as plain values.
use vstd::prelude::*;

verus! {

/// Number of squares of the board.
pub const SQUARES: usize = 64;

/// Number of piece kinds.
pub const PIECES: usize = 6;

#[derive(Clone, Copy, Debug, PartialEq, Eq, Structural)]
pub enum Color {
    White,
    Black,
}

impl Color {
    pub open spec fn slot(self) -> int {
        match self {
            Color::White => 0,
            Color::Black => 1,
        }
    }

    /// The row of this side in a table that has one row per side.
    pub fn index(self) -> (i: usize)
        ensures
            i == self.slot(),
            i < 2,
    {
        match self {
            Color::White => 0,
            Color::Black => 1,
        }
    }
}

#[derive(Clone, Copy, Debug, PartialEq, Eq, Structural)]
pub enum Piece {
    Pawn,
    Knight,
    Bishop,
    Rook,
    Queen,
    King,
}

impl Piece {
    pub open spec fn slot(self) -> int {
        match self {
            Piece::Pawn => 0,
            Piece::Knight => 1,
            Piece::Bishop => 2,
            Piece::Rook => 3,
            Piece::Queen => 4,
            Piece::King => 5,
        }
    }

    /// The row of this kind in a table that has one row per piece kind.
    pub fn index(self) -> (i: usize)
        ensures
            i == self.slot(),
            i < PIECES,
    {
        match self {
            Piece::Pawn => 0,
            Piece::Knight => 1,
            Piece::Bishop => 2,
            Piece::Rook => 3,
            Piece::Queen => 4,
            Piece::King => 5,
        }
    }
}

/// A move of one position: its squares, and what the board says of it there.
///
/// `code` is whatever else tells two moves between the same squares apart
/// (a promotion piece, say). `tactic` and `quiet` are the board's verdicts on
/// the move.
#[derive(Clone, Copy, Debug, PartialEq, Eq, Structural)]
pub struct Move {
    pub from: u8,
    pub to: u8,
    pub code: u16,
    pub tactic: bool,
    pub quiet: bool,
}

impl Move {
    /// Both squares are squares of the board.
    pub open spec fn wf(self) -> bool {
        self.from < SQUARES && self.to < SQUARES
    }

    /// Tests [`Move::wf`].
    pub fn on_board(self) -> (b: bool)
        ensures
            b == self.wf(),
    {
        (self.from as usize) < SQUARES && (self.to as usize) < SQUARES
    }
}

/// Every move of a list lies on the board.
pub open spec fn all_on_board(moves: Seq<Move>) -> bool {
    forall|i: int| 0 <= i < moves.len() ==> (#[trigger] moves[i]).wf()
}

/// How a game that is over ended. A checkmate names a side, which the search does not
/// read: the side to move is the one that is mated.
#[derive(Clone, Copy, Debug, PartialEq, Eq, Structural)]
pub enum TerminalState {
    Checkmate(Color),
    Draw,
}

/// The facts of a board that the search and its tables read.
#[derive(Clone, Copy, Debug)]
pub struct Board {
    /// The side to move.
    pub stm: Color,
    /// What stands on each square.
    pub pieces: [Option<Piece>; 64],
    /// The attacked squares, one bit each.
    pub attacked: u64,
    pub hash: u64,
    pub pawn_hash: u64,
    pub minor_hash: u64,
    pub major_hash: u64,
    pub white_nonpawn_hash: u64,
    pub black_nonpawn_hash: u64,
    /// The side to move is in check.
    pub in_check: bool,
    pub terminal: Option<TerminalState>,
}

impl Board {
    pub open spec fn spec_piece_on(self, square: u8) -> Option<Piece> {
        self.pieces@[square as int]
    }

    /// What stands on a square.
    pub fn piece_on(&self, square: u8) -> (p: Option<Piece>)
        requires
            square < SQUARES,
        ensures
            p == self.spec_piece_on(square),
    {
        self.pieces[square as usize]
    }

    pub open spec fn spec_is_attacked(self, square: u8) -> bool {
        (self.attacked >> (square as u64)) & 1 == 1
    }

    /// Is the square one of the attacked ones?
    pub fn is_attacked(&self, square: u8) -> (b: bool)
        requires
            square < SQUARES,
        ensures
            b == self.spec_is_attacked(square),
    {
        (self.attacked >> (square as u64)) & 1 == 1
    }
}

/// A board with what its game tells of how it was reached.
#[derive(Clone, Copy, Debug)]
pub struct Position {
    pub board: Board,
    /// The move that led here and the piece that made it; none at the start of
    /// a game and after a null move.
    pub prev: Option<(Piece, Move)>,
    /// The board has occurred before.
    pub repetition: bool,
}

impl Position {
    /// The previous move, if there is one, lies on the board.
    pub open spec fn wf(self) -> bool {
        self.prev matches Some(p) ==> p.1.wf()
    }

    /// Tests [`Position::wf`].
    pub fn is_valid(&self) -> (b: bool)
        ensures
            b == self.wf(),
    {
        match self.prev {
            Some(p) => p.1.on_board(),
            None => true,
        }
    }
}

} // verus!
