//! The terminals that are connected.

use crate::error::{ErrorText, NodegetError};
use vstd::hash_set::StringHashSet;
use vstd::prelude::*;

verus! {

/// The ids of the connected terminals.
pub struct TerminalPool {
    ids: StringHashSet,
}

impl View for TerminalPool {
    type V = Set<Seq<char>>;

    closed spec fn view(&self) -> Set<Seq<char>> {
        self.ids@
    }
}

/// Why an id that is connected cannot be reserved.
pub open spec fn already_connected(terminal_id: Seq<char>) -> Seq<char> {
    "Terminal ID '"@ + terminal_id + "' is already connected"@
}

impl TerminalPool {
    /// A pool without terminals.
    pub fn new() -> (r: Self)
        ensures
            r@ == Set::<Seq<char>>::empty(),
    {
        TerminalPool { ids: StringHashSet::new() }
    }

    /// Takes an id for a terminal that connects. An id that is connected already is refused, and
    /// the pool stays as it is.
    pub fn reserve_terminal_id(&mut self, terminal_id: &str) -> (r: Result<(), NodegetError>)
        ensures
            match r {
                Ok(()) => {
                    &&& !old(self)@.contains(terminal_id@)
                    &&& final(self)@ == old(self)@.insert(terminal_id@)
                },
                Err(e) => {
                    &&& old(self)@.contains(terminal_id@)
                    &&& e@ == ErrorText::InvalidInput(already_connected(terminal_id@))
                    &&& e matches NodegetError::InvalidInput(m) && m@ == "Terminal ID '"@
                        + terminal_id@ + "' is already connected"@
                    &&& final(self)@ == old(self)@
                },
            },
    {
        if self.ids.contains(terminal_id) {
            let mut message: String = "Terminal ID '".to_owned();
            message.append(terminal_id);
            message.append("' is already connected");
            return Err(NodegetError::InvalidInput(message));
        }
        self.ids.insert(terminal_id.to_owned());
        Ok(())
    }

    /// Gives an id back. An id that is not connected is passed over.
    pub fn release_terminal_id(&mut self, terminal_id: &str)
        ensures
            final(self)@ == old(self)@.remove(terminal_id@),
    {
        self.ids.remove(terminal_id);
    }
}

/// Releasing an id that was free and was reserved restores the pool, and the id can be reserved
/// again; terminals with other ids stay as they are throughout.
pub proof fn law_release_undoes_reserve(pool: Set<Seq<char>>, terminal_id: Seq<char>)
    requires
        !pool.contains(terminal_id),
    ensures
        pool.insert(terminal_id).contains(terminal_id),
        pool.insert(terminal_id).remove(terminal_id) == pool,
        forall|other: Seq<char>|
            other != terminal_id ==> #[trigger] pool.insert(terminal_id).contains(other)
                == pool.contains(other),
{
    assert(pool.insert(terminal_id).remove(terminal_id) =~= pool);
}

/// The refusal of an id names it between quotes.
pub proof fn law_already_connected(terminal_id: Seq<char>)
    ensures
        already_connected(terminal_id) == "Terminal ID '"@ + terminal_id
            + "' is already connected"@,
{
}

/// What happens to terminal tasks.
pub enum TaskEvent {
    /// A task begins and asks for this id. Where the id is connected already, it ends at once.
    Begin(Seq<char>),
    /// A task that was to begin had no URL.
    WithoutUrl,
    /// The running task at this place ends, with whatever outcome.
    End(int),
}

/// The pool, and the ids of the running tasks in the order in which they began.
pub struct Tasks {
    pub pool: Set<Seq<char>>,
    pub running: Seq<Seq<char>>,
}

/// Whether an event can happen: only a running task ends.
pub open spec fn can_happen(tasks: Tasks, event: TaskEvent) -> bool {
    match event {
        TaskEvent::End(i) => 0 <= i < tasks.running.len(),
        _ => true,
    }
}

/// What an event makes of the pool and the running tasks: a task with a free id reserves it and
/// runs, and one that ends releases its id.
pub open spec fn after_event(tasks: Tasks, event: TaskEvent) -> Tasks {
    match event {
        TaskEvent::Begin(id) => if tasks.pool.contains(id) {
            tasks
        } else {
            Tasks { pool: tasks.pool.insert(id), running: tasks.running.push(id) }
        },
        TaskEvent::WithoutUrl => tasks,
        TaskEvent::End(i) => Tasks {
            pool: tasks.pool.remove(tasks.running[i]),
            running: tasks.running.remove(i),
        },
    }
}

/// What events make of the pool and the running tasks, one after the other.
pub open spec fn after_events(tasks: Tasks, events: Seq<TaskEvent>) -> Tasks
    decreases events.len(),
{
    if events.len() == 0 {
        tasks
    } else {
        after_event(after_events(tasks, events.drop_last()), events.last())
    }
}

/// Whether each of the events can happen when its turn comes.
pub open spec fn can_all_happen(tasks: Tasks, events: Seq<TaskEvent>) -> bool {
    forall|i: int|
        0 <= i < events.len() ==> can_happen(
            after_events(tasks, events.take(i)),
            #[trigger] events[i],
        )
}

/// Whether the pool holds the ids in `others` and those of the running tasks, and none of these
/// twice.
pub open spec fn holds_running(tasks: Tasks, others: Set<Seq<char>>) -> bool {
    &&& tasks.running.no_duplicates()
    &&& forall|id: Seq<char>| #[trigger]
        tasks.pool.contains(id) <==> others.contains(id) || tasks.running.contains(id)
    &&& forall|id: Seq<char>|
        others.contains(id) ==> !#[trigger] tasks.running.contains(id)
}

/// However tasks begin and end from a pool on, and however their events interleave: no two running
/// tasks ever have one id, the pool holds what it held and the ids of the running tasks, so that
/// just these are refused to others; and once no task runs any more, it is the pool again.
pub proof fn law_tasks_restore_the_pool(pool: Set<Seq<char>>, events: Seq<TaskEvent>)
    requires
        can_all_happen(Tasks { pool, running: seq![] }, events),
    ensures
        holds_running(after_events(Tasks { pool, running: seq![] }, events), pool),
        after_events(Tasks { pool, running: seq![] }, events).running.len() == 0 ==> after_events(
            Tasks { pool, running: seq![] },
            events,
        ).pool == pool,
    decreases events.len(),
{
    let start = Tasks { pool, running: seq![] };
    let end = after_events(start, events);
    if events.len() > 0 {
        let earlier = events.drop_last();
        assert forall|i: int| 0 <= i < earlier.len() implies can_happen(
            after_events(start, earlier.take(i)),
            #[trigger] earlier[i],
        ) by {
            assert(earlier[i] == events[i]);
            assert(earlier.take(i) =~= events.take(i));
        }
        law_tasks_restore_the_pool(pool, earlier);
        assert(events.take(events.len() - 1) =~= earlier);
        assert(can_happen(after_events(start, earlier), events[events.len() - 1]));
        lemma_event_keeps(after_events(start, earlier), events.last(), pool);
    }
    if end.running.len() == 0 {
        assert(end.pool =~= pool) by {
            assert forall|id: Seq<char>| end.pool.contains(id) == pool.contains(id) by {
                assert(!end.running.contains(id));
            }
        }
    }
}

proof fn lemma_event_keeps(tasks: Tasks, event: TaskEvent, others: Set<Seq<char>>)
    requires
        holds_running(tasks, others),
        can_happen(tasks, event),
    ensures
        holds_running(after_event(tasks, event), others),
{
    let running = tasks.running;
    let after = after_event(tasks, event);
    match event {
        TaskEvent::Begin(new_id) => {
            if !tasks.pool.contains(new_id) {
                let more = after.running;
                assert forall|i: int, j: int|
                    0 <= i < more.len() && 0 <= j < more.len() && i != j implies more[i]
                    != more[j] by {
                    if i == running.len() {
                        assert(running.contains(running[j]));
                    } else if j == running.len() {
                        assert(running.contains(running[i]));
                    }
                }
                assert forall|id: Seq<char>| #[trigger]
                    more.contains(id) <==> running.contains(id) || id == new_id by {
                    if running.contains(id) {
                        let i = choose|i: int| 0 <= i < running.len() && running[i] == id;
                        assert(more[i] == id);
                    }
                    assert(more[running.len() as int] == new_id);
                    if more.contains(id) && id != new_id {
                        let i = choose|i: int| 0 <= i < more.len() && more[i] == id;
                        assert(running[i] == id);
                    }
                }
                assert forall|id: Seq<char>| #[trigger]
                    after.pool.contains(id) <==> others.contains(id) || more.contains(id) by {
                    assert(tasks.pool.contains(id) <==> others.contains(id) || running.contains(
                        id,
                    ));
                }
                assert forall|id: Seq<char>| others.contains(id) implies !#[trigger] more.contains(
                    id,
                ) by {
                    assert(tasks.pool.contains(id));
                }
            }
        },
        TaskEvent::WithoutUrl => {},
        TaskEvent::End(ended) => {
            let fewer = after.running;
            let gone = running[ended];
            assert forall|i: int, j: int|
                0 <= i < fewer.len() && 0 <= j < fewer.len() && i != j implies fewer[i]
                != fewer[j] by {
                let a = if i < ended {
                    i
                } else {
                    i + 1
                };
                let b = if j < ended {
                    j
                } else {
                    j + 1
                };
                assert(fewer[i] == running[a]);
                assert(fewer[j] == running[b]);
            }
            assert forall|id: Seq<char>| #[trigger]
                fewer.contains(id) <==> running.contains(id) && id != gone by {
                if running.contains(id) && id != gone {
                    let i = choose|i: int| 0 <= i < running.len() && running[i] == id;
                    assert(fewer[if i < ended {
                        i
                    } else {
                        i - 1
                    }] == id);
                }
                if fewer.contains(id) {
                    let i = choose|i: int| 0 <= i < fewer.len() && fewer[i] == id;
                    let a = if i < ended {
                        i
                    } else {
                        i + 1
                    };
                    assert(fewer[i] == running[a]);
                    assert(running[a] != running[ended]);
                }
            }
            assert(running.contains(gone));
            assert forall|id: Seq<char>| #[trigger]
                after.pool.contains(id) <==> others.contains(id) || fewer.contains(id) by {
                assert(tasks.pool.contains(id) <==> others.contains(id) || running.contains(id));
            }
        },
    }
}

} // verus!
