//! The handle and the worker together: the contexts that they share, and the commands that
//! are on their way.
use vstd::prelude::*;

use crate::board::Move;
use crate::history::Tables;
use crate::searcher::{GlobalCtx, SearchParams, ThreadCmd, WorkerNext};
use crate::thread::ThreadView;

verus! {

/// What a worker is about.
pub enum WorkerPhase {
    /// It takes the next command.
    Idle,
    /// It searches.
    Searching,
    /// It has left the search as the last thread, and performs the closing steps up to the
    /// clearing of the count.
    Closing,
    /// It has ended.
    Over,
}

/// A handle and its worker.
#[verifier::ext_equal]
pub struct System {
    /// All contexts there have been, each at the place of its number. The last one is the
    /// handle's.
    pub contexts: Seq<GlobalCtx>,
    /// The commands that were sent and not yet taken, in order.
    pub queue: Seq<ThreadCmd>,
    /// The number of the context that the worker searches in.
    pub current: int,
    pub phase: WorkerPhase,
    /// The worker's thread.
    pub thread: ThreadView,
}

/// What happens in a system.
pub enum Event {
    /// The handle starts a search.
    Search(SearchParams),
    /// The handle replaces the context.
    Resize(u64),
    /// The handle starts a new game.
    NewGame,
    /// The handle ends the worker.
    Quit,
    /// The worker takes the next command, with all moves of the position to search.
    Take(Seq<Move>),
    /// The search of the worker leaves its thread like this, after so many more nodes.
    Searched(ThreadView, u64),
    /// The worker is done searching.
    Leave,
    /// The worker clears the count.
    Clear,
}

impl System {
    /// A searcher that was just made.
    pub open spec fn initial(ttable_mb: u64, thread: ThreadView) -> System {
        System {
            contexts: seq![GlobalCtx::idle(0, ttable_mb)],
            queue: Seq::empty(),
            current: 0,
            phase: WorkerPhase::Idle,
            thread,
        }
    }

    /// The handle's context.
    pub open spec fn shared(self) -> GlobalCtx {
        self.contexts.last()
    }

    /// What the handle answers to whether a search is going on.
    pub open spec fn is_running(self) -> bool {
        self.shared().num_searching != 0
    }

    /// The number of threads that search.
    pub open spec fn searching(self) -> int {
        if self.phase is Searching {
            1
        } else {
            0
        }
    }

    /// A search was started, and its end is not reached yet: its command is on its way, or
    /// the worker is at it.
    pub open spec fn outstanding(self) -> bool {
        searches(self.queue) > 0 || self.phase is Searching || self.phase is Closing
    }

    /// The context that the worker has when it takes the next command.
    pub open spec fn next_context(self) -> int {
        switched(self.current, self.queue[0])
    }
}

/// The context of a worker after a command.
pub open spec fn switched(current: int, cmd: ThreadCmd) -> int {
    match cmd {
        ThreadCmd::SetGlobal(id) => id as int,
        _ => current,
    }
}

/// The context of a worker after all these commands.
pub open spec fn target(current: int, queue: Seq<ThreadCmd>) -> int
    decreases queue.len(),
{
    if queue.len() == 0 {
        current
    } else {
        target(switched(current, queue[0]), queue.drop_first())
    }
}

/// How many of these commands start a search.
pub open spec fn searches(queue: Seq<ThreadCmd>) -> nat
    decreases queue.len(),
{
    if queue.len() == 0 {
        0
    } else {
        searches(queue.drop_first()) + if queue[0] is Search {
            1
        } else {
            0nat
        }
    }
}

pub open spec fn no_switch(queue: Seq<ThreadCmd>) -> bool {
    forall|i: int| 0 <= i < queue.len() ==> !(#[trigger] queue[i] is SetGlobal)
}

/// No context is replaced behind a command that starts a search.
pub open spec fn ordered(queue: Seq<ThreadCmd>) -> bool
    decreases queue.len(),
{
    queue.len() == 0 || {
        &&& queue[0] is Search ==> no_switch(queue.drop_first())
        &&& ordered(queue.drop_first())
    }
}

/// The event can happen now. The handle starts searches and new games and replaces the
/// context only where no search is going on, the worker takes one command after another,
/// and the last thread to leave clears the count.
pub open spec fn possible(s: System, event: Event) -> bool {
    match event {
        Event::Search(_) => !s.is_running(),
        Event::Resize(_) => !s.is_running() && s.shared().id < u64::MAX,
        Event::NewGame => !s.is_running(),
        Event::Quit => true,
        Event::Take(_) => s.phase is Idle && s.queue.len() > 0,
        Event::Searched(..) => s.phase is Searching,
        Event::Leave => s.phase is Searching,
        Event::Clear => s.phase is Closing,
    }
}

/// The system after an event.
pub open spec fn after(s: System, event: Event) -> System {
    match event {
        Event::Search(params) => System {
            contexts: s.contexts.update(s.contexts.len() - 1, s.shared().spec_started()),
            queue: s.queue.push(ThreadCmd::Search(Box::new(params))),
            ..s
        },
        Event::Resize(mb) => System {
            contexts: s.contexts.push(s.shared().spec_replaced(mb)),
            queue: s.queue.push(ThreadCmd::SetGlobal(s.shared().spec_replaced(mb).id)),
            ..s
        },
        Event::NewGame => System { queue: s.queue.push(ThreadCmd::NewGame), ..s },
        Event::Quit => System { queue: s.queue.push(ThreadCmd::Quit), ..s },
        Event::Take(all_moves) => {
            let current = s.next_context();
            let r = crate::searcher::received(s.thread, s.contexts[current], s.queue[0], all_moves);
            System {
                contexts: s.contexts.update(current, r.global),
                queue: s.queue.drop_first(),
                current,
                phase: match r.next {
                    WorkerNext::Search { .. } => WorkerPhase::Searching,
                    WorkerNext::Wait => WorkerPhase::Idle,
                    WorkerNext::Quit => WorkerPhase::Over,
                },
                thread: r.thread,
            }
        },
        Event::Searched(thread, nodes) => System {
            contexts: s.contexts.update(s.current, s.contexts[s.current].spec_count_nodes(nodes)),
            thread,
            ..s
        },
        Event::Leave => System {
            contexts: s.contexts.update(s.current, s.contexts[s.current].spec_leave()),
            phase: if s.contexts[s.current].num_searching == 2 {
                WorkerPhase::Closing
            } else {
                WorkerPhase::Idle
            },
            ..s
        },
        Event::Clear => System {
            contexts: s.contexts.update(s.current, s.contexts[s.current].spec_clear()),
            phase: WorkerPhase::Idle,
            ..s
        },
    }
}

/// The system after these events.
pub open spec fn gone(s: System, events: Seq<Event>) -> System
    decreases events.len(),
{
    if events.len() == 0 {
        s
    } else {
        after(gone(s, events.drop_last()), events.last())
    }
}

/// Each event can happen when its turn comes.
pub open spec fn all_possible(s: System, events: Seq<Event>) -> bool
    decreases events.len(),
{
    events.len() == 0 || {
        &&& all_possible(s, events.drop_last())
        &&& possible(gone(s, events.drop_last()), events.last())
    }
}

impl System {
    /// Contexts are numbered; the commands lead the worker to the handle's context before it
    /// searches; at most one search is outstanding, and the count is one more than the number
    /// of searching threads as long as there is one, and zero otherwise.
    pub open spec fn wf(self) -> bool {
        &&& self.contexts.len() > 0
        &&& forall|i: int| 0 <= i < self.contexts.len() ==> (#[trigger] self.contexts[i]).id == i
        &&& 0 <= self.current < self.contexts.len()
        &&& forall|i: int|
            0 <= i < self.queue.len() ==> (#[trigger] self.queue[i] matches ThreadCmd::SetGlobal(id) ==> id
                < self.contexts.len())
        &&& target(self.current, self.queue) == self.contexts.len() - 1
        &&& ordered(self.queue)
        &&& searches(self.queue) <= 1
        &&& self.phase is Searching || self.phase is Closing ==> searches(self.queue) == 0 && no_switch(self.queue)
        &&& self.shared().num_searching == (if self.outstanding() {
            self.searching() + 1
        } else {
            0
        })
    }
}

proof fn lemma_no_switch(current: int, queue: Seq<ThreadCmd>)
    requires
        no_switch(queue),
    ensures
        target(current, queue) == current,
    decreases queue.len(),
{
    if queue.len() > 0 {
        assert(!(queue[0] is SetGlobal));
        let rest = queue.drop_first();
        assert forall|i: int| 0 <= i < rest.len() implies !(#[trigger] rest[i] is SetGlobal) by {
            assert(rest[i] == queue[i + 1]);
        }
        lemma_no_switch(current, rest);
    }
}

proof fn lemma_sent(current: int, queue: Seq<ThreadCmd>, cmd: ThreadCmd)
    ensures
        target(current, queue.push(cmd)) == switched(target(current, queue), cmd),
        searches(queue.push(cmd)) == searches(queue) + (if cmd is Search {
            1nat
        } else {
            0
        }),
        ordered(queue) && (searches(queue) == 0 || !(cmd is SetGlobal)) ==> ordered(queue.push(cmd)),
    decreases queue.len(),
{
    let all = queue.push(cmd);
    if queue.len() == 0 {
        assert(all.drop_first() =~= Seq::<ThreadCmd>::empty());
        assert(target(switched(current, cmd), all.drop_first()) == switched(current, cmd));
        assert(searches(all.drop_first()) == 0);
        assert(ordered(all.drop_first()));
    } else {
        let rest = queue.drop_first();
        assert(all.drop_first() =~= rest.push(cmd));
        assert(all[0] == queue[0]);
        lemma_sent(switched(current, queue[0]), rest, cmd);
        if ordered(queue) && (searches(queue) == 0 || !(cmd is SetGlobal)) && queue[0] is Search {
            assert forall|i: int| 0 <= i < all.drop_first().len() implies !(#[trigger] all.drop_first()[i] is SetGlobal) by {
                if i < rest.len() {
                    assert(all.drop_first()[i] == rest[i]);
                }
            }
        }
    }
}

/// Whatever can happen keeps the system in order.
pub proof fn law_system_is_kept(s: System, event: Event)
    requires
        s.wf(),
        possible(s, event),
    ensures
        after(s, event).wf(),
{
    let then = after(s, event);
    match event {
        Event::Search(params) => {
            lemma_sent(s.current, s.queue, ThreadCmd::Search(Box::new(params)));
        },
        Event::Resize(mb) => {
            lemma_sent(s.current, s.queue, ThreadCmd::SetGlobal(s.shared().spec_replaced(mb).id));
            assert(s.contexts[s.contexts.len() - 1].id == s.contexts.len() - 1);
        },
        Event::NewGame => {
            lemma_sent(s.current, s.queue, ThreadCmd::NewGame);
        },
        Event::Quit => {
            lemma_sent(s.current, s.queue, ThreadCmd::Quit);
        },
        Event::Take(all_moves) => {
            let rest = s.queue.drop_first();
            assert(s.queue[0] matches ThreadCmd::SetGlobal(id) ==> id < s.contexts.len());
            assert forall|i: int| 0 <= i < rest.len() implies (#[trigger] rest[i] matches ThreadCmd::SetGlobal(id)
                ==> id < s.contexts.len()) by {
                assert(rest[i] == s.queue[i + 1]);
            }
            if s.queue[0] is Search {
                lemma_no_switch(s.current, rest);
            }
            assert(s.contexts[then.current].id == then.current);
        },
        Event::Searched(..) | Event::Leave | Event::Clear => {
            lemma_no_switch(s.current, s.queue);
            assert(s.contexts[s.current].id == s.current);
        },
    }
}

/// From its making on, whatever happens, a system is in order. In particular the count is
/// zero exactly where no search is outstanding.
pub proof fn law_system_stays_in_order(ttable_mb: u64, thread: ThreadView, events: Seq<Event>)
    requires
        all_possible(System::initial(ttable_mb, thread), events),
    ensures
        gone(System::initial(ttable_mb, thread), events).wf(),
        gone(System::initial(ttable_mb, thread), events).is_running() <==> gone(
            System::initial(ttable_mb, thread),
            events,
        ).outstanding(),
    decreases events.len(),
{
    let s = System::initial(ttable_mb, thread);
    if events.len() > 0 {
        law_system_stays_in_order(ttable_mb, thread, events.drop_last());
        law_system_is_kept(gone(s, events.drop_last()), events.last());
    }
}

/// From the moment a search was started until the last thread has cleared the count, the
/// handle says that a search is going on, without a gap: whichever commands had been sent
/// before and however many of them the worker has taken. All that time the count is one more
/// than the number of searching threads.
pub proof fn law_running_without_a_gap(
    ttable_mb: u64,
    thread: ThreadView,
    before: Seq<Event>,
    params: SearchParams,
    later: Seq<Event>,
)
    requires
        all_possible(
            System::initial(ttable_mb, thread),
            before.push(Event::Search(params)) + later,
        ),
        forall|i: int| 0 <= i < later.len() ==> !(#[trigger] later[i] is Clear),
    ensures
        ({
            let s = gone(System::initial(ttable_mb, thread), before.push(Event::Search(params)) + later);
            &&& s.outstanding()
            &&& s.is_running()
            &&& s.shared().num_searching == s.searching() + 1
        }),
    decreases later.len(),
{
    let s = System::initial(ttable_mb, thread);
    let started = before.push(Event::Search(params));
    let events = started + later;
    law_system_stays_in_order(ttable_mb, thread, events);
    if later.len() == 0 {
        assert(events =~= started);
        assert(started.drop_last() =~= before);
        lemma_sent(gone(s, before).current, gone(s, before).queue, ThreadCmd::Search(Box::new(params)));
    } else {
        assert(events.drop_last() =~= started + later.drop_last());
        law_running_without_a_gap(ttable_mb, thread, before, params, later.drop_last());
        law_system_stays_in_order(ttable_mb, thread, events.drop_last());
        let prior = gone(s, events.drop_last());
        let last = later[later.len() - 1];
        assert(events.last() == last);
        lemma_outstanding(prior, last);
    }
}

/// Only the clearing of the count ends what is outstanding.
proof fn lemma_outstanding(s: System, event: Event)
    requires
        s.wf(),
        possible(s, event),
        s.outstanding(),
        !(event is Clear),
    ensures
        after(s, event).outstanding(),
{
    match event {
        Event::Search(params) => {
            lemma_sent(s.current, s.queue, ThreadCmd::Search(Box::new(params)));
        },
        Event::Resize(mb) => {
            lemma_sent(s.current, s.queue, ThreadCmd::SetGlobal(s.shared().spec_replaced(mb).id));
        },
        Event::NewGame => {
            lemma_sent(s.current, s.queue, ThreadCmd::NewGame);
        },
        Event::Quit => {
            lemma_sent(s.current, s.queue, ThreadCmd::Quit);
        },
        Event::Leave => {
            lemma_no_switch(s.current, s.queue);
        },
        _ => {},
    }
}

/// The clearing of the count ends the search, for the handle too.
pub proof fn law_clearing_ends_the_search(s: System)
    requires
        s.wf(),
        possible(s, Event::Clear),
    ensures
        s.is_running(),
        !after(s, Event::Clear).is_running(),
        !after(s, Event::Clear).outstanding(),
{
    law_system_is_kept(s, Event::Clear);
}

/// A worker takes its commands in the order in which they were sent, each in the state that
/// the ones before have left. A command to search joins the handle's own context. A command
/// that names another context makes that one the worker's, changes none of them, and leaves
/// the tables as they are. A new game blanks the tables and changes nothing else. Only the
/// command to quit ends the worker.
pub proof fn law_commands_are_taken_in_order(s: System, all_moves: Seq<Move>)
    requires
        s.wf(),
        possible(s, Event::Take(all_moves)),
    ensures
        ({
            let cmd = s.queue[0];
            let then = after(s, Event::Take(all_moves));
            &&& then.queue == s.queue.drop_first()
            &&& cmd is Search ==> then.phase is Searching && then.current == s.contexts.len() - 1 && then.contexts
                == s.contexts.update(s.contexts.len() - 1, s.shared().spec_join())
            &&& cmd matches ThreadCmd::SetGlobal(id) ==> then.current == id && then.contexts == s.contexts
                && then.contexts[then.current].id == id && then.thread == (ThreadView { nodes: 0, ..s.thread })
            &&& cmd is NewGame ==> then == (System {
                queue: s.queue.drop_first(),
                thread: s.thread.with_tables(Tables::blank()),
                ..s
            })
            &&& then.phase is Over <==> cmd is Quit
        }),
{
    let cmd = s.queue[0];
    let then = after(s, Event::Take(all_moves));
    assert(cmd matches ThreadCmd::SetGlobal(id) ==> id < s.contexts.len());
    if cmd is Search {
        lemma_no_switch(s.current, s.queue.drop_first());
    } else {
        assert(then.contexts =~= s.contexts);
    }
}

/// The nodes that a worker searches are counted in the context that it was given last, and
/// in no other one.
pub proof fn law_nodes_are_counted_in_the_context_that_was_given(s: System, thread: ThreadView, nodes: u64, i: int)
    requires
        s.wf(),
        possible(s, Event::Searched(thread, nodes)),
        0 <= i < s.contexts.len(),
    ensures
        ({
            let then = after(s, Event::Searched(thread, nodes));
            &&& then.current == s.current == s.contexts.len() - 1
            &&& then.contexts[s.current] == s.contexts[s.current].spec_count_nodes(nodes)
            &&& i != s.current ==> then.contexts[i] == s.contexts[i]
        }),
{
    lemma_no_switch(s.current, s.queue);
}

/// The worker takes a command to quit.
pub open spec fn takes_quit(s: System, event: Event) -> bool {
    event is Take && s.queue[0] is Quit
}

/// One of these events is that the worker takes a command to quit.
pub open spec fn quit_taken(s: System, events: Seq<Event>) -> bool
    decreases events.len(),
{
    events.len() > 0 && (quit_taken(s, events.drop_last()) || takes_quit(
        gone(s, events.drop_last()),
        events.last(),
    ))
}

proof fn lemma_over(s: System, event: Event)
    requires
        possible(s, event),
    ensures
        after(s, event).phase is Over <==> s.phase is Over || takes_quit(s, event),
{
}

/// A worker has ended if and only if it has taken a command to quit.
pub proof fn law_only_quit_ends_a_worker(ttable_mb: u64, thread: ThreadView, events: Seq<Event>)
    requires
        all_possible(System::initial(ttable_mb, thread), events),
    ensures
        gone(System::initial(ttable_mb, thread), events).phase is Over <==> quit_taken(
            System::initial(ttable_mb, thread),
            events,
        ),
    decreases events.len(),
{
    if events.len() > 0 {
        law_only_quit_ends_a_worker(ttable_mb, thread, events.drop_last());
        lemma_over(gone(System::initial(ttable_mb, thread), events.drop_last()), events.last());
    }
}

} // verus!
