//! What one search thread keeps while it searches.
use vstd::prelude::*;

use crate::board::Move;
use crate::history::{History, Tables};
use crate::limits::MAX_PLY;
use crate::math;
use crate::pv::{clear_line, extend_line, line_of, new_line, PrincipalVariation};
use crate::score::{Score, ScoreScale};

verus! {

/// What a node leaves on the search stack for its neighbours in the tree.
pub struct SearchStackEntry {
    /// The best line from this ply on.
    pub pv: PrincipalVariation,
    pub static_eval: Score,
    /// The move that a singular search at this ply leaves out.
    pub singular: Option<Move>,
}

/// A [`SearchStackEntry`] with its line as a sequence.
#[verifier::ext_equal]
pub struct EntryView {
    pub pv: Seq<Move>,
    pub static_eval: Score,
    pub singular: Option<Move>,
}

impl View for SearchStackEntry {
    type V = EntryView;

    open spec fn view(&self) -> EntryView {
        EntryView {
            pv: crate::pv::line(self.pv),
            static_eval: self.static_eval,
            singular: self.singular,
        }
    }
}

impl EntryView {
    /// An entry that no node has written yet.
    pub open spec fn blank(scale: ScoreScale) -> EntryView {
        EntryView {
            pv: Seq::empty(),
            static_eval: Score((-scale.infinite) as i16),
            singular: None,
        }
    }
}

impl SearchStackEntry {
    /// An entry that no node has written yet.
    pub fn default(scale: &ScoreScale) -> (e: SearchStackEntry)
        requires
            scale.wf(),
        ensures
            e@ == EntryView::blank(*scale),
    {
        SearchStackEntry { pv: new_line(), static_eval: Score(-scale.infinite), singular: None }
    }
}

/// The data of one search thread.
pub struct ThreadCtx {
    pub id: usize,
    pub chess960: bool,
    /// The search is to end: every node returns at once.
    pub abort_now: bool,
    /// Nodes counted since the search began.
    pub nodes: u64,
    pub root_moves: Vec<Move>,
    /// The deepest ply seen.
    pub sel_depth: u16,
    pub search_stack: Vec<SearchStackEntry>,
    pub root_pv: PrincipalVariation,
    pub history: Box<History>,
    pub scale: ScoreScale,
}

/// A [`ThreadCtx`] with sequences in place of its collections.
#[verifier::ext_equal]
pub struct ThreadView {
    pub id: usize,
    pub chess960: bool,
    pub abort_now: bool,
    pub nodes: u64,
    pub root_moves: Seq<Move>,
    pub sel_depth: u16,
    pub stack: Seq<EntryView>,
    pub root_pv: Seq<Move>,
    pub tables: Tables,
    pub scale: ScoreScale,
}

impl View for ThreadCtx {
    type V = ThreadView;

    open spec fn view(&self) -> ThreadView {
        ThreadView {
            id: self.id,
            chess960: self.chess960,
            abort_now: self.abort_now,
            nodes: self.nodes,
            root_moves: self.root_moves@,
            sel_depth: self.sel_depth,
            stack: self.search_stack@.map_values(|e: SearchStackEntry| e@),
            root_pv: crate::pv::line(self.root_pv),
            tables: self.history@,
            scale: self.scale,
        }
    }
}

/// A search stack of the right length on which no line runs past the last ply.
pub open spec fn stack_wf(stack: Seq<EntryView>) -> bool {
    &&& stack.len() == MAX_PLY + 1
    &&& forall|p: int| 0 <= p < stack.len() ==> (#[trigger] stack[p]).pv.len() <= MAX_PLY - p
}

/// A search stack that no node has written to.
pub open spec fn blank_stack(scale: ScoreScale) -> Seq<EntryView> {
    Seq::new((MAX_PLY + 1) as nat, |p: int| EntryView::blank(scale))
}

impl ThreadView {
    pub open spec fn wf(self) -> bool {
        &&& self.scale.wf()
        &&& stack_wf(self.stack)
        &&& self.tables.wf()
    }

    /// One more node is counted.
    pub open spec fn counted(self) -> ThreadView {
        ThreadView { nodes: (if self.nodes == u64::MAX { 0 } else { self.nodes + 1 }) as u64, ..self }
    }

    /// A node at this ply was seen.
    pub open spec fn seen(self, ply: u16) -> ThreadView {
        ThreadView { sel_depth: math::max(self.sel_depth as int, ply as int) as u16, ..self }
    }

    pub open spec fn with_entry(self, ply: u16, entry: EntryView) -> ThreadView {
        ThreadView { stack: self.stack.update(ply as int, entry), ..self }
    }

    /// The line at this ply is forgotten.
    pub open spec fn without_line(self, ply: u16) -> ThreadView {
        self.with_entry(ply, EntryView { pv: Seq::empty(), ..self.stack[ply as int] })
    }

    pub open spec fn with_static_eval(self, ply: u16, static_eval: Score) -> ThreadView {
        self.with_entry(ply, EntryView { static_eval, ..self.stack[ply as int] })
    }

    pub open spec fn with_singular(self, ply: u16, singular: Option<Move>) -> ThreadView {
        self.with_entry(ply, EntryView { singular, ..self.stack[ply as int] })
    }

    /// The line at this ply is a move and then the line of the next ply.
    pub open spec fn with_line(self, ply: u16, mv: Move) -> ThreadView {
        self.with_entry(
            ply,
            EntryView { pv: seq![mv] + self.stack[ply + 1].pv, ..self.stack[ply as int] },
        )
    }

    pub open spec fn aborted(self) -> ThreadView {
        ThreadView { abort_now: true, ..self }
    }

    pub open spec fn with_tables(self, tables: Tables) -> ThreadView {
        ThreadView { tables, ..self }
    }
}

fn blank_entries(scale: &ScoreScale) -> (stack: Vec<SearchStackEntry>)
    requires
        scale.wf(),
    ensures
        stack@.map_values(|e: SearchStackEntry| e@) == blank_stack(*scale),
{
    let len: usize = MAX_PLY as usize + 1;
    let mut stack: Vec<SearchStackEntry> = Vec::with_capacity(len);
    while stack.len() < len
        invariant
            scale.wf(),
            stack.len() <= len,
            forall|i: int| 0 <= i < stack.len() ==> (#[trigger] stack@[i])@ == EntryView::blank(*scale),
        decreases len - stack.len(),
    {
        stack.push(SearchStackEntry::default(scale));
    }
    assert(stack@.map_values(|e: SearchStackEntry| e@) =~= blank_stack(*scale));
    stack
}

impl ThreadCtx {
    /// A thread that has not searched anything yet.
    pub fn new(id: usize, scale: ScoreScale) -> (thread: ThreadCtx)
        requires
            scale.wf(),
        ensures
            thread@ == (ThreadView {
                id,
                chess960: false,
                abort_now: false,
                nodes: 0,
                root_moves: Seq::empty(),
                sel_depth: 0,
                stack: blank_stack(scale),
                root_pv: Seq::empty(),
                tables: Tables::blank(),
                scale,
            }),
            thread@.wf(),
    {
        ThreadCtx {
            id,
            chess960: false,
            abort_now: false,
            nodes: 0,
            root_moves: Vec::new(),
            sel_depth: 0,
            search_stack: blank_entries(&scale),
            root_pv: new_line(),
            history: History::new(),
            scale,
        }
    }

    /// Forgets what is on the search stack.
    pub(crate) fn reset_stack(&mut self)
        requires
            old(self)@.scale.wf(),
        ensures
            final(self)@ == (ThreadView { stack: blank_stack(old(self)@.scale), ..old(self)@ }),
    {
        self.search_stack = blank_entries(&self.scale);
    }

    pub(crate) fn count_node(&mut self)
        ensures
            final(self)@ == old(self)@.counted(),
    {
        self.nodes = self.nodes.wrapping_add(1);
    }

    pub(crate) fn see(&mut self, ply: u16)
        ensures
            final(self)@ == old(self)@.seen(ply),
    {
        if ply > self.sel_depth {
            self.sel_depth = ply;
        }
    }

    pub(crate) fn forget_line(&mut self, ply: u16)
        requires
            old(self)@.wf(),
            ply <= MAX_PLY,
        ensures
            final(self)@ == old(self)@.without_line(ply),
    {
        clear_line(&mut self.search_stack[ply as usize].pv);
        assert(self@.stack =~= old(self)@.without_line(ply).stack);
    }

    pub(crate) fn set_static_eval(&mut self, ply: u16, static_eval: Score)
        requires
            old(self)@.wf(),
            ply <= MAX_PLY,
        ensures
            final(self)@ == old(self)@.with_static_eval(ply, static_eval),
    {
        self.search_stack[ply as usize].static_eval = static_eval;
        assert(self@.stack =~= old(self)@.with_static_eval(ply, static_eval).stack);
    }

    pub(crate) fn set_singular(&mut self, ply: u16, singular: Option<Move>)
        requires
            old(self)@.wf(),
            ply <= MAX_PLY,
        ensures
            final(self)@ == old(self)@.with_singular(ply, singular),
    {
        self.search_stack[ply as usize].singular = singular;
        assert(self@.stack =~= old(self)@.with_singular(ply, singular).stack);
    }
}

/// The line at a ply becomes a move and then the line of the next ply.
pub fn update_pv(thread: &mut ThreadCtx, ply: u16, mv: Move)
    requires
        old(thread)@.wf(),
        ply < MAX_PLY,
    ensures
        final(thread)@ == old(thread)@.with_line(ply, mv),
        final(thread)@.wf(),
{
    let child: usize = ply as usize + 1;
    let mut pv = line_of(mv);
    assert(thread@.stack[child as int].pv.len() <= MAX_PLY - child);
    extend_line(&mut pv, &thread.search_stack[child].pv);
    thread.search_stack[ply as usize].pv = pv;
    assert(thread@.stack =~= old(thread)@.with_line(ply, mv).stack);
}

} // verus!
