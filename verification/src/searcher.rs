//! The searcher: what the engine's main thread decides, and what a worker thread does
//! with its commands.
//!
//! The threads, the clock, the transposition table and the channel are the engine's.
//! The functions here say what to do with them, as lists of effects in order.
use vstd::prelude::*;

use crate::board::{Color, Move, Position};
use crate::history::Tables;
use crate::id_loop;
use crate::id_loop::IdLoop;
use crate::score::Score;
use crate::thread::{ThreadCtx, ThreadView};

verus! {

/// What all search threads share.
#[derive(Clone, Copy, Debug, PartialEq, Eq, Structural)]
pub struct GlobalCtx {
    /// Which context this is: one that takes the place of another has the next number.
    pub id: u64,
    /// Estimate of the number of nodes searched across all threads.
    pub nodes: u64,
    /// Number of currently searching threads + 1. If not in search, 0.
    pub num_searching: u32,
    /// The size that the transposition table was made with, in megabytes.
    pub ttable_mb: u64,
}

impl GlobalCtx {
    /// A context in which nothing is searched.
    pub open spec fn idle(id: u64, ttable_mb: u64) -> GlobalCtx {
        GlobalCtx { id, nodes: 0, num_searching: 0, ttable_mb }
    }

    /// A search has begun: no node is counted, and one pseudo-searcher is.
    pub open spec fn spec_started(self) -> GlobalCtx {
        GlobalCtx { nodes: 0, num_searching: 1, ..self }
    }

    /// The context that takes the place of this one, with a table of another size.
    pub open spec fn spec_replaced(self, ttable_mb: u64) -> GlobalCtx {
        GlobalCtx::idle((self.id + 1) as u64, ttable_mb)
    }

    /// The count of searching threads after one more has joined.
    pub open spec fn spec_join(self) -> GlobalCtx {
        GlobalCtx { num_searching: (self.num_searching + 1) as u32, ..self }
    }

    /// The count of searching threads after one has left.
    pub open spec fn spec_leave(self) -> GlobalCtx {
        GlobalCtx { num_searching: (self.num_searching - 1) as u32, ..self }
    }

    /// The search is over.
    pub open spec fn spec_clear(self) -> GlobalCtx {
        GlobalCtx { num_searching: 0, ..self }
    }

    /// So many more nodes were searched.
    pub open spec fn spec_count_nodes(self, nodes: u64) -> GlobalCtx {
        GlobalCtx { nodes: wrapped(self.nodes + nodes), ..self }
    }

    /// A thread begins to search.
    pub fn join(&mut self)
        requires
            old(self).num_searching < u32::MAX,
        ensures
            *final(self) == old(self).spec_join(),
    {
        self.num_searching = self.num_searching + 1;
    }

    /// A thread is done searching; says whether it was the last one. The search still
    /// counts as running until the last one clears the count.
    pub fn leave(&mut self) -> (last: bool)
        requires
            old(self).num_searching > 0,
        ensures
            *final(self) == old(self).spec_leave(),
            last == (old(self).num_searching == 2),
    {
        let last = self.num_searching == 2;
        self.num_searching = self.num_searching - 1;
        last
    }

    /// Ends the search: no thread is searching any more.
    pub fn clear(&mut self)
        ensures
            *final(self) == old(self).spec_clear(),
    {
        self.num_searching = 0;
    }

    /// Adds nodes to the estimate.
    pub fn count_nodes(&mut self, nodes: u64)
        ensures
            *final(self) == old(self).spec_count_nodes(nodes),
    {
        self.nodes = self.nodes.wrapping_add(nodes);
    }
}

/// A count that starts again at zero where its width ends.
pub open spec fn wrapped(count: int) -> u64 {
    (if count > u64::MAX {
        count - u64::MAX - 1
    } else {
        count
    }) as u64
}

/// A limit of a search, as far as the searcher looks into it.
pub enum SearchLimit {
    /// Only these moves are searched at the root.
    SearchMoves(Vec<Move>),
    /// A limit that concerns the clock alone, by the number that the engine knows it by.
    Clock(usize),
}

/// The moves of the first limit that names any.
pub open spec fn first_moves(limits: Seq<SearchLimit>) -> Option<Seq<Move>>
    decreases limits.len(),
{
    if limits.len() == 0 {
        None
    } else {
        match limits[0] {
            SearchLimit::SearchMoves(moves) => Some(moves@),
            SearchLimit::Clock(_) => first_moves(limits.drop_first()),
        }
    }
}

pub open spec fn moves_view(moves: Option<Vec<Move>>) -> Option<Seq<Move>> {
    match moves {
        Some(moves) => Some(moves@),
        None => None,
    }
}

/// What a worker is told to search.
pub struct SearchParams {
    pub pos: Position,
    /// The moves to search at the root; all of them if there is none.
    pub root_moves: Option<Vec<Move>>,
    pub chess960: bool,
    pub print_info: bool,
}

/// What a worker is told.
pub enum ThreadCmd {
    Search(Box<SearchParams>),
    /// From now on, search in the context of this number. The context itself is shared with
    /// the handle: the command brings no counters of its own.
    SetGlobal(u64),
    NewGame,
    Quit,
}

/// What the engine is to do.
pub enum Effect {
    /// Start the clock for this side to move and these limits.
    InitClock(Color, Vec<SearchLimit>),
    /// Tell the search to stop.
    RaiseStop,
    /// Forget everything in the transposition table.
    ClearTable,
    /// Replace the shared context by this one, with a new transposition table of its size
    /// and a new clock. The old one stays as it is for whoever still holds it.
    ReplaceContext(GlobalCtx),
    /// Send the worker a command.
    Send(ThreadCmd),
    /// Wait for the worker thread to end.
    Join,
}

/// The engine's handle on its search.
pub struct Searcher {
    pub global_ctx: GlobalCtx,
    /// The worker thread has not been told to quit.
    pub worker: bool,
}

impl Searcher {
    pub open spec fn running(self) -> bool {
        self.global_ctx.num_searching != 0
    }

    /// A searcher with a worker that has nothing to do.
    pub fn default(ttable_mb: u64) -> (s: Searcher)
        ensures
            s.global_ctx == GlobalCtx::idle(0, ttable_mb),
            s.worker,
            !s.running(),
    {
        Searcher { global_ctx: GlobalCtx { id: 0, nodes: 0, num_searching: 0, ttable_mb }, worker: true }
    }

    /// Is a search going on?
    pub fn is_running(&self) -> (b: bool)
        ensures
            b == self.running(),
    {
        self.global_ctx.num_searching != 0
    }

    /// Starts a search. One pseudo-searcher is counted from the start, so that the
    /// search counts as running before the worker has joined it.
    pub fn search(
        &mut self,
        pos: Position,
        limits: Vec<SearchLimit>,
        chess960: bool,
        print_info: bool,
    ) -> (effects: Vec<Effect>)
        requires
            !old(self).running(),
        ensures
            final(self).global_ctx == old(self).global_ctx.spec_started(),
            final(self).worker == old(self).worker,
            final(self).running(),
            effects@.len() == 2,
            effects@[0] matches Effect::InitClock(stm, all) && stm == pos.board.stm && all@ == limits@,
            effects@[1] matches Effect::Send(ThreadCmd::Search(params)) && params.pos == pos && moves_view(
                params.root_moves,
            ) == first_moves(limits@) && params.chess960 == chess960 && params.print_info == print_info,
    {
        self.global_ctx.nodes = 0;
        self.global_ctx.num_searching = 1;
        let root_moves = find_moves(&limits);
        let params = Box::new(SearchParams { pos, root_moves, chess960, print_info });
        let mut effects: Vec<Effect> = Vec::new();
        effects.push(Effect::InitClock(pos.board.stm, limits));
        effects.push(Effect::Send(ThreadCmd::Search(params)));
        effects
    }

    /// Starts a new game.
    pub fn newgame(&mut self) -> (effects: Vec<Effect>)
        requires
            !old(self).running(),
        ensures
            *final(self) == *old(self),
            effects@ == seq![Effect::ClearTable, Effect::Send(ThreadCmd::NewGame)],
    {
        let mut effects: Vec<Effect> = Vec::new();
        effects.push(Effect::ClearTable);
        effects.push(Effect::Send(ThreadCmd::NewGame));
        effects
    }

    /// Ends the worker.
    pub fn quit(&mut self) -> (effects: Vec<Effect>)
        requires
            old(self).worker,
        ensures
            *final(self) == (Searcher { worker: false, ..*old(self) }),
            effects@ == seq![Effect::RaiseStop, Effect::Send(ThreadCmd::Quit), Effect::Join],
    {
        self.worker = false;
        let mut effects: Vec<Effect> = Vec::new();
        effects.push(Effect::RaiseStop);
        effects.push(Effect::Send(ThreadCmd::Quit));
        effects.push(Effect::Join);
        effects
    }

    /// Stops the search that is going on.
    pub fn stop(&self) -> (effects: Vec<Effect>)
        requires
            self.running(),
        ensures
            effects@ == seq![Effect::RaiseStop],
    {
        let mut effects: Vec<Effect> = Vec::new();
        effects.push(Effect::RaiseStop);
        effects
    }

    /// What a thread that waits for the end of the search is to do: sleep as long as
    /// the count of searching threads has this value, or go on if there is none.
    pub fn wait(&self) -> (sleep_on: Option<u32>)
        ensures
            sleep_on == (if self.running() {
                Some(self.global_ctx.num_searching)
            } else {
                None
            }),
    {
        if self.global_ctx.num_searching != 0 {
            Some(self.global_ctx.num_searching)
        } else {
            None
        }
    }

    /// Replaces the transposition table by an empty one of another size, and with it the
    /// whole context.
    pub fn resize_ttable(&mut self, mb: u64) -> (effects: Vec<Effect>)
        requires
            !old(self).running(),
            old(self).global_ctx.id < u64::MAX,
        ensures
            *final(self) == (Searcher { global_ctx: old(self).global_ctx.spec_replaced(mb), ..*old(self) }),
            effects@ == seq![
                Effect::ReplaceContext(old(self).global_ctx.spec_replaced(mb)),
                Effect::Send(ThreadCmd::SetGlobal(old(self).global_ctx.spec_replaced(mb).id)),
            ],
    {
        let id: u64 = self.global_ctx.id + 1;
        self.global_ctx = GlobalCtx { id, nodes: 0, num_searching: 0, ttable_mb: mb };
        let mut effects: Vec<Effect> = Vec::new();
        effects.push(Effect::ReplaceContext(self.global_ctx));
        effects.push(Effect::Send(ThreadCmd::SetGlobal(id)));
        effects
    }
}

fn copy_moves(moves: &Vec<Move>) -> (copy: Vec<Move>)
    ensures
        copy@ == moves@,
{
    let mut copy: Vec<Move> = Vec::new();
    let mut i: usize = 0;
    while i < moves.len()
        invariant
            i <= moves@.len(),
            copy@ == moves@.take(i as int),
        decreases moves.len() - i,
    {
        copy.push(moves[i]);
        assert(moves@.take(i + 1) =~= moves@.take(i as int).push(moves@[i as int]));
        i += 1;
    }
    assert(moves@.take(moves@.len() as int) =~= moves@);
    copy
}

/// The moves of the first limit that names any.
fn find_moves(limits: &Vec<SearchLimit>) -> (moves: Option<Vec<Move>>)
    ensures
        moves_view(moves) == first_moves(limits@),
{
    let mut i: usize = 0;
    assert(limits@.skip(0) =~= limits@);
    while i < limits.len()
        invariant
            i <= limits@.len(),
            first_moves(limits@.skip(i as int)) == first_moves(limits@),
        decreases limits.len() - i,
    {
        assert(limits@.skip(i as int)[0] == limits@[i as int]);
        assert(limits@.skip(i as int).drop_first() =~= limits@.skip(i + 1));
        match &limits[i] {
            SearchLimit::SearchMoves(moves) => {
                return Some(copy_moves(moves));
            },
            SearchLimit::Clock(_) => {},
        }
        i += 1;
    }
    None
}

/// What a worker does next.
pub enum WorkerNext {
    /// Search this position, and report if `print` is set.
    Search { pos: Position, print: bool },
    /// Wait for the next command.
    Wait,
    /// End.
    Quit,
}

/// A thread that is ready to search these root moves: nothing is counted, nothing is on
/// its stack, and nothing is aborted.
pub open spec fn ready(t: ThreadView, root_moves: Seq<Move>, chess960: bool) -> ThreadView {
    ThreadView {
        nodes: 0,
        root_moves,
        chess960,
        stack: crate::thread::blank_stack(t.scale),
        abort_now: false,
        ..t
    }
}

/// Does the worker need all moves of the position to carry out a command?
pub fn needs_moves(cmd: &ThreadCmd) -> (b: bool)
    ensures
        b == (cmd matches ThreadCmd::Search(params) && params.root_moves is None),
{
    match cmd {
        ThreadCmd::Search(params) => params.root_moves.is_none(),
        _ => false,
    }
}

/// What a command leaves behind, and what the worker does next.
#[verifier::ext_equal]
pub struct Received {
    pub thread: ThreadView,
    pub global: GlobalCtx,
    pub next: WorkerNext,
}

/// What a command does to a thread and to the context that it then searches in, as the
/// handle has left it: a search is joined by a thread that is ready for it, a thread that is
/// given another context counts from zero, and a new game forgets the tables.
pub open spec fn received(t: ThreadView, global: GlobalCtx, cmd: ThreadCmd, all_moves: Seq<Move>) -> Received {
    match cmd {
        ThreadCmd::Search(params) => Received {
            thread: ready(
                t,
                match params.root_moves {
                    Some(moves) => moves@,
                    None => all_moves,
                },
                params.chess960,
            ),
            global: global.spec_join(),
            next: WorkerNext::Search { pos: params.pos, print: params.print_info },
        },
        ThreadCmd::SetGlobal(_) => Received {
            thread: ThreadView { nodes: 0, ..t },
            global,
            next: WorkerNext::Wait,
        },
        ThreadCmd::NewGame => Received {
            thread: t.with_tables(Tables::blank()),
            global,
            next: WorkerNext::Wait,
        },
        ThreadCmd::Quit => Received { thread: t, global, next: WorkerNext::Quit },
    }
}

/// Takes a command. `global` is the context that the worker shares with the handle; for a
/// command that gives it another one, that other one. `all_moves` are the moves of the
/// position to search, for a command that names none.
pub fn receive(
    thread: &mut ThreadCtx,
    global: &mut GlobalCtx,
    cmd: ThreadCmd,
    all_moves: Vec<Move>,
) -> (next: WorkerNext)
    requires
        old(thread)@.wf(),
        cmd is Search ==> old(global).num_searching < u32::MAX,
        cmd matches ThreadCmd::SetGlobal(id) ==> id == old(global).id,
    ensures
        final(thread)@.wf(),
        cmd is SetGlobal ==> *final(global) == *old(global),
        (Received { thread: final(thread)@, global: *final(global), next }) == received(
            old(thread)@,
            *old(global),
            cmd,
            all_moves@,
        ),
{
    match cmd {
        ThreadCmd::Search(params) => {
            let params = *params;
            global.join();
            thread.nodes = 0;
            thread.root_moves = match params.root_moves {
                Some(moves) => moves,
                None => all_moves,
            };
            thread.chess960 = params.chess960;
            thread.reset_stack();
            thread.abort_now = false;
            WorkerNext::Search { pos: params.pos, print: params.print_info }
        },
        ThreadCmd::SetGlobal(_) => {
            thread.nodes = 0;
            WorkerNext::Wait
        },
        ThreadCmd::NewGame => {
            thread.history.clear();
            WorkerNext::Wait
        },
        ThreadCmd::Quit => WorkerNext::Quit,
    }
}

/// What the engine is to do at the end of a thread's search.
#[derive(Clone, Copy, Debug, PartialEq, Eq, Structural)]
pub enum Closing {
    /// Report the last depth.
    Report { score: Score, depth: u16 },
    /// Print the move to play.
    BestMove(Move),
    /// Clear the count of searching threads: those that wait for the end of the search may
    /// go on.
    ClearCount,
    /// Wake those that wait for the end of the search.
    Wake,
    /// Let the transposition table age.
    AgeTable,
}

/// A thread that reports does so first. The last thread then ends the search for all.
pub open spec fn closings(
    score: Score,
    depth: u16,
    best_move: Move,
    report: bool,
    last: bool,
) -> Seq<Closing> {
    let words = if report {
        seq![Closing::Report { score, depth }, Closing::BestMove(best_move)]
    } else {
        Seq::empty()
    };
    if last {
        words + seq![Closing::ClearCount, Closing::Wake, Closing::AgeTable]
    } else {
        words
    }
}

/// Ends the search of a thread that has come this far, and says what to do then, in
/// order. The search counts as running until the last thread has cleared the count. The
/// move to play comes first; it is printed only where the thread reports.
pub fn close(id: &IdLoop, thread: &ThreadCtx, global: &mut GlobalCtx, print: bool) -> (closing: (
    Move,
    Vec<Closing>,
))
    requires
        old(global).num_searching > 0,
        thread@.root_pv.len() > 0 || thread@.root_moves.len() > 0,
    ensures
        *final(global) == old(global).spec_leave(),
        closing.0 == id_loop::chosen_move(thread@),
        thread@.root_pv.len() > 0 ==> closing.0 == thread@.root_pv[0],
        thread@.root_pv.len() == 0 ==> closing.0 == thread@.root_moves[0],
        closing.1@ == closings(
            id.best_score,
            id.depth,
            id_loop::chosen_move(thread@),
            id_loop::spec_reports(thread@, print),
            old(global).num_searching == 2,
        ),
{
    let last = global.leave();
    let best_move = id_loop::best_move(thread);
    let mut todo: Vec<Closing> = Vec::new();
    if id_loop::reports(thread, print) {
        todo.push(Closing::Report { score: id.best_score, depth: id.depth });
        todo.push(Closing::BestMove(best_move));
    }
    if last {
        todo.push(Closing::ClearCount);
        todo.push(Closing::Wake);
        todo.push(Closing::AgeTable);
    }
    (best_move, todo)
}

/// The context after these closing steps have been performed.
pub open spec fn performed(global: GlobalCtx, done: Seq<Closing>) -> GlobalCtx
    decreases done.len(),
{
    if done.len() == 0 {
        global
    } else {
        let before = performed(global, done.drop_last());
        if done.last() is ClearCount {
            before.spec_clear()
        } else {
            before
        }
    }
}

proof fn lemma_uncleared(global: GlobalCtx, done: Seq<Closing>)
    requires
        forall|i: int| 0 <= i < done.len() ==> !(#[trigger] done[i] is ClearCount),
    ensures
        performed(global, done) == global,
    decreases done.len(),
{
    if done.len() > 0 {
        lemma_uncleared(global, done.drop_last());
    }
}

proof fn lemma_cleared(global: GlobalCtx, done: Seq<Closing>, c: int)
    requires
        0 <= c < done.len(),
        done[c] is ClearCount,
    ensures
        performed(global, done).num_searching == 0,
    decreases done.len(),
{
    if !(done.last() is ClearCount) {
        lemma_cleared(global, done.drop_last(), c);
    }
}

/// However far a thread has come with the closing steps of its search: as long as its last
/// report or the move to play is still to be printed, the search counts as running, so that
/// nobody who waits for its end goes on. Only the last thread ends the search, and it has
/// ended it before it wakes those that wait.
pub proof fn law_waiters_go_on_after_the_best_move(
    global: GlobalCtx,
    score: Score,
    depth: u16,
    best_move: Move,
    report: bool,
    worker: bool,
    k: int,
)
    requires
        global.num_searching >= 2,
        0 <= k <= closings(score, depth, best_move, report, global.num_searching == 2).len(),
    ensures
        ({
            let last = global.num_searching == 2;
            let todo = closings(score, depth, best_move, report, last);
            let now = performed(global.spec_leave(), todo.take(k));
            &&& forall|i: int|
                k <= i < todo.len() && (#[trigger] todo[i] is BestMove || todo[i] is Report) ==> (Searcher {
                    global_ctx: now,
                    worker,
                }).running()
            &&& k < todo.len() && todo[k] is Wake ==> last && now.num_searching == 0
            &&& k == todo.len() ==> now.num_searching == (if last {
                0
            } else {
                global.num_searching - 1
            })
        }),
{
    let last = global.num_searching == 2;
    let todo = closings(score, depth, best_move, report, last);
    let c: int = if report {
        2
    } else {
        0
    };
    if last && k > c {
        assert(todo[c] is ClearCount);
        assert(todo.take(k)[c] is ClearCount);
        lemma_cleared(global.spec_leave(), todo.take(k), c);
    } else {
        lemma_uncleared(global.spec_leave(), todo.take(k));
    }
}

/// What happens to the count of searching threads.
pub enum CountEvent {
    Join,
    Leave,
    Clear,
}

/// The count after a search has begun and these things have happened.
pub open spec fn count(events: Seq<CountEvent>) -> int
    decreases events.len(),
{
    if events.len() == 0 {
        1
    } else {
        let before = count(events.drop_last());
        match events.last() {
            CountEvent::Join => before + 1,
            CountEvent::Leave => before - 1,
            CountEvent::Clear => 0,
        }
    }
}

/// The number of threads that have joined and not left.
pub open spec fn searching(events: Seq<CountEvent>) -> int
    decreases events.len(),
{
    if events.len() == 0 {
        0
    } else {
        searching(events.drop_last()) + match events.last() {
            CountEvent::Join => 1int,
            CountEvent::Leave => -1,
            CountEvent::Clear => 0,
        }
    }
}

/// From the start of a search until the count is cleared, the count is one more than the
/// number of searching threads, so the search counts as running all the time. Once it is
/// cleared it does not.
pub proof fn law_running_until_the_count_is_cleared(events: Seq<CountEvent>)
    requires
        forall|i: int| 0 <= i < events.len() ==> !(#[trigger] events[i] is Clear),
    ensures
        count(events) == searching(events) + 1,
        searching(events) >= 0 ==> count(events) > 0,
        count(events.push(CountEvent::Clear)) == 0,
    decreases events.len(),
{
    if events.len() > 0 {
        law_running_until_the_count_is_cleared(events.drop_last());
    }
}

/// [`GlobalCtx::join`], [`GlobalCtx::leave`] and [`GlobalCtx::clear`] count as [`count`]
/// does, and the thread that is told that it left last is the last one that was searching.
pub proof fn law_count_is_kept(global: GlobalCtx, events: Seq<CountEvent>)
    requires
        forall|i: int| 0 <= i < events.len() ==> !(#[trigger] events[i] is Clear),
        global.num_searching == count(events),
        0 < global.num_searching < u32::MAX,
    ensures
        global.spec_join().num_searching == count(events.push(CountEvent::Join)),
        global.spec_leave().num_searching == count(events.push(CountEvent::Leave)),
        global.spec_clear().num_searching == count(events.push(CountEvent::Clear)),
        global.num_searching == 2 <==> searching(events.push(CountEvent::Leave)) == 0,
{
    law_running_until_the_count_is_cleared(events);
    assert(events.push(CountEvent::Join).drop_last() =~= events);
    assert(events.push(CountEvent::Leave).drop_last() =~= events);
}

} // verus!
