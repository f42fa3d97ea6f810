//! The vocabulary of a node: what it is searched with, what it asks the engine that
//! holds the position, and what the engine answers.
use vstd::prelude::*;

use crate::board::{Move, Position};
use crate::limits::{MAX_DEPTH, MAX_PLY};
use crate::score::{Score, ScoreScale};

verus! {

/// The kinds of node that the search tells apart.
pub trait NodeType {
    /// The node where the search begins.
    const ROOT: bool;

    /// The node may lie on the principal variation.
    const PV: bool;

    /// The kind as a value.
    spec fn spec_kind() -> NodeKind;

    /// The kind as a value.
    fn kind() -> (kind: NodeKind)
        ensures
            kind == Self::spec_kind(),
    ;
}

pub struct Root;

pub struct PV;

pub struct NonPV;

impl NodeType for Root {
    const ROOT: bool = true;

    const PV: bool = true;

    open spec fn spec_kind() -> NodeKind {
        NodeKind { root: true, pv: true }
    }

    fn kind() -> (kind: NodeKind) {
        NodeKind { root: Self::ROOT, pv: Self::PV }
    }
}

impl NodeType for PV {
    const ROOT: bool = false;

    const PV: bool = true;

    open spec fn spec_kind() -> NodeKind {
        NodeKind { root: false, pv: true }
    }

    fn kind() -> (kind: NodeKind) {
        NodeKind { root: Self::ROOT, pv: Self::PV }
    }
}

impl NodeType for NonPV {
    const ROOT: bool = false;

    const PV: bool = false;

    open spec fn spec_kind() -> NodeKind {
        NodeKind { root: false, pv: false }
    }

    fn kind() -> (kind: NodeKind) {
        NodeKind { root: Self::ROOT, pv: Self::PV }
    }
}

/// The root is the root and lies on the principal variation, which the nodes of its kind do
/// and the others do not.
pub proof fn law_marks_of_the_kinds()
    ensures
        Root::ROOT,
        Root::PV,
        !PV::ROOT,
        PV::PV,
        !NonPV::ROOT,
        !NonPV::PV,
{
}

/// A [`NodeType`] as a value.
#[derive(Clone, Copy, Debug, PartialEq, Eq, Structural)]
pub struct NodeKind {
    pub root: bool,
    pub pv: bool,
}

impl NodeKind {
    /// The kind of [`PV`] nodes.
    pub open spec fn spec_pv() -> NodeKind {
        NodeKind { root: false, pv: true }
    }

    /// The kind of [`NonPV`] nodes.
    pub open spec fn spec_non_pv() -> NodeKind {
        NodeKind { root: false, pv: false }
    }

    /// The kind of a node's first child: no root, but still on the principal
    /// variation if the node is.
    pub open spec fn spec_next(self) -> NodeKind {
        NodeKind { root: false, pv: self.pv }
    }

    /// The value of a kind.
    pub fn of<Node: NodeType>() -> (kind: NodeKind)
        ensures
            kind == Node::spec_kind(),
    {
        Node::kind()
    }

    /// The kind of the first child.
    pub fn next(self) -> (kind: NodeKind)
        ensures
            kind == self.spec_next(),
    {
        NodeKind { root: false, pv: self.pv }
    }
}

/// What a stored score says of the true one.
#[derive(Clone, Copy, Debug, PartialEq, Eq, Structural)]
pub enum TTFlag {
    /// The score is exact.
    Exact,
    /// The true score is at least this.
    Lower,
    /// The true score is at most this.
    Upper,
}

/// What the transposition table knows of a position.
#[derive(Clone, Copy, Debug, PartialEq, Eq, Structural)]
pub struct TTEntry {
    pub mv: Option<Move>,
    pub depth: u8,
    pub score: Score,
    pub eval: Score,
    pub flag: TTFlag,
}

/// What a finished node tells the transposition table.
#[derive(Clone, Copy, Debug, PartialEq, Eq, Structural)]
pub struct TTStore {
    pub hash: u64,
    pub depth: u8,
    pub ply: u16,
    pub eval: Score,
    pub score: Score,
    pub mv: Option<Move>,
    pub flag: TTFlag,
    pub pv: bool,
}

/// How a move picker is set up.
#[derive(Clone, Copy, Debug, PartialEq, Eq, Structural)]
pub struct PickerSetup {
    /// The move to try first.
    pub tt_move: Option<Move>,
    /// Leave the quiet moves out.
    pub skip_quiets: bool,
    /// The exchange value from which on a tactical move counts as a good one.
    pub see_threshold: i16,
    /// The picker serves a quiescence search.
    pub quiescence: bool,
}

/// A move as the picker hands it out.
#[derive(Clone, Copy, Debug, PartialEq, Eq, Structural)]
pub struct Pick {
    pub mv: Move,
    /// The picker is past the good tactical moves.
    pub past_good_tactics: bool,
    /// The picker will hand out no quiet move any more.
    pub no_more_quiets: bool,
}

/// What a node is searched with.
#[derive(Clone, Copy, Debug, PartialEq, Eq, Structural)]
pub struct Params {
    pub kind: NodeKind,
    pub depth: i16,
    pub ply: u16,
    pub alpha: Score,
    pub beta: Score,
    pub cutnode: bool,
}

impl Params {
    /// The window lies on the scale with room to be turned around, the ply has a
    /// place on the search stack or is the first one past it, and the depth can be
    /// extended along a line.
    pub open spec fn wf(self, scale: ScoreScale) -> bool {
        &&& -scale.infinite <= self.alpha.0 < scale.infinite
        &&& -scale.infinite < self.beta.0 <= scale.infinite
        &&& self.ply <= MAX_PLY + 1
        &&& self.depth <= MAX_DEPTH + self.ply
        &&& self.kind.root ==> self.kind.pv
    }

    /// Tests [`Params::wf`].
    pub fn is_valid(&self, scale: &ScoreScale) -> (b: bool)
        requires
            scale.wf(),
        ensures
            b == self.wf(*scale),
    {
        -scale.infinite <= self.alpha.0 && self.alpha.0 < scale.infinite && -scale.infinite < self.beta.0
            && self.beta.0 <= scale.infinite && self.ply <= MAX_PLY + 1 && self.depth as i32
            <= MAX_DEPTH as i32 + self.ply as i32 && (!self.kind.root || self.kind.pv)
    }
}

/// What a node asks for.
#[derive(Clone, Copy, Debug, PartialEq, Eq, Structural)]
pub enum Query {
    /// Is the time up, after this many nodes of the thread?
    Stop { nodes: u64 },
    /// What does the transposition table know of the position?
    Probe { hash: u64, ply: u16 },
    /// What is the position worth on its face?
    Evaluate,
    /// Pass the move.
    MakeNull,
    /// Take back the passed move.
    UnmakeNull,
    /// Set up a move picker for this node.
    OpenPicker(PickerSetup),
    /// Hand out the next move.
    NextMove,
    /// Hand out no more quiet moves.
    SkipQuiets,
    /// By how much is a late move reduced?
    Reduction { tactic: bool, depth: u8, moves_seen: u32 },
    /// Does the exchange that a move starts win at least `margin`?
    See { mv: Move, margin: i16 },
    MakeMove(Move),
    UnmakeMove,
    /// Tell the transposition table.
    Store(TTStore),
}

/// What a node is told.
#[derive(Clone, Copy, Debug)]
pub enum Reply {
    /// The query was carried out.
    Done,
    Stop(bool),
    Entry(Option<TTEntry>),
    Eval(Score),
    /// The position after the move that was made.
    Reached(Position),
    Move(Option<Pick>),
    Reduction(i16),
    See(bool),
    /// What the search of a child returned.
    Child(Score),
}

/// What a node does next.
#[derive(Clone, Copy, Debug)]
pub enum Outcome {
    /// It waits for an answer.
    Ask(Query),
    /// It waits for a search of the given position.
    Search(Params, Position),
    /// It waits for a quiescence search of the given position.
    Quiesce(Params, Position),
    /// It is done, with this score.
    Done(Score),
    /// The line runs past the end of the search stack.
    Overrun,
}

/// What a node has made on the board and not taken back.
#[derive(Clone, Copy, Debug, PartialEq, Eq, Structural)]
pub enum Made {
    Null,
    Move(Move),
}

/// Going on with `out` takes a node that had made `before` to one that has made
/// `after`: it makes nothing on top of what it has made, takes back only what it has
/// made, and leaves nothing made behind.
pub open spec fn carried_out(before: Option<Made>, out: Outcome, after: Option<Made>) -> bool {
    match out {
        Outcome::Ask(Query::MakeNull) => before is None && after == Some(Made::Null),
        Outcome::Ask(Query::UnmakeNull) => before == Some(Made::Null) && after is None,
        Outcome::Ask(Query::MakeMove(mv)) => before is None && after == Some(Made::Move(mv)),
        Outcome::Ask(Query::UnmakeMove) => (before matches Some(Made::Move(_))) && after is None,
        Outcome::Done(_) => before is None && after is None,
        Outcome::Overrun => true,
        _ => after == before,
    }
}

/// One more ply where something has been made.
pub open spec fn plies(made: Option<Made>) -> int {
    if made is Some {
        1
    } else {
        0
    }
}

} // verus!
