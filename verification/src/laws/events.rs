//! What lasts: of everything that can happen in a session, what touches what, and what does not.

use vstd::prelude::*;

use crate::failure::StatusCode;
use crate::imports::{HurlinImportArgs, SlotView};
use crate::intern::FileNameRef;
use crate::keys::{AsyncKey, TaskId};
use crate::replies;
use crate::state::StateView;

verus! {

/// Something that happens in a session.
pub enum Event<L, W> {
    /// A task starts.
    Started { task: TaskId, stack: Seq<FileNameRef> },
    /// The task that ran a file ends.
    Ended { task: TaskId, file: FileNameRef, args: HurlinImportArgs, success: bool },
    /// A task exports something.
    Exported { task: TaskId, body: Seq<u8>, mime: Option<Seq<u8>> },
    /// An import of a file is decided on.
    Claimed { file: FileNameRef, args: HurlinImportArgs, waker: L },
    /// It is given up to run a file into the cache.
    GivenUp { file: FileNameRef },
    /// Something is started that can be awaited.
    Opened { key: AsyncKey, task: TaskId },
    /// What has ended is awaited.
    Taken { key: AsyncKey, task: TaskId },
    /// What has not ended is awaited.
    Awaited { key: AsyncKey, task: TaskId, waiter: W },
    /// What was started ends.
    Settled {
        key: AsyncKey,
        task: TaskId,
        came_to: Result<(Option<Seq<u8>>, Seq<u8>), StatusCode>,
    },
    /// A file becomes known.
    Named { file: FileNameRef, name: Seq<char> },
    /// An import is recorded.
    Imported { parent: FileNameRef, imported: FileNameRef },
}

impl<L, W> Event<L, W> {
    /// The event is about what can be awaited under the key and by the task of `id`.
    pub open spec fn is_about_wait(self, id: (AsyncKey, TaskId)) -> bool {
        match self {
            Event::Opened { key, task } => (key, task) == id,
            Event::Taken { key, task } => (key, task) == id,
            Event::Awaited { key, task, .. } => (key, task) == id,
            Event::Settled { key, task, .. } => (key, task) == id,
            _ => false,
        }
    }

    /// The event is about something that can be awaited.
    pub open spec fn is_about_waits(self) -> bool {
        self is Opened || self is Taken || self is Awaited || self is Settled
    }

    /// The event is an export of `task`, or its end.
    pub open spec fn is_about_export(self, task: TaskId) -> bool {
        match self {
            Event::Exported { task: at, .. } => at == task,
            Event::Ended { task: at, .. } => at == task,
            _ => false,
        }
    }

    /// The event is the start of `task`, or its end.
    pub open spec fn is_about_task(self, task: TaskId) -> bool {
        match self {
            Event::Started { task: at, .. } => at == task,
            Event::Ended { task: at, .. } => at == task,
            _ => false,
        }
    }

    /// The event is about what the cache holds of `file`.
    pub open spec fn is_about_cache(self, file: FileNameRef) -> bool {
        match self {
            Event::Claimed { file: at, args, .. } => at == file && args == HurlinImportArgs::Normal,
            Event::Ended { file: at, args, .. } => at == file && args == HurlinImportArgs::Normal,
            Event::GivenUp { file: at } => at == file,
            _ => false,
        }
    }
}

/// The state after an event.
pub open spec fn after<L, W>(state: StateView<L, W>, event: Event<L, W>) -> StateView<L, W> {
    match event {
        Event::Started { task, stack } => state.with_task(task, stack),
        Event::Ended { task, file, args, success } => state.without_task(task, file, args, success),
        Event::Exported { task, body, mime } => state.with_export(task, body, mime),
        Event::Claimed { file, args, waker } => state.with_claim(file, args, waker),
        Event::GivenUp { file } => state.without_claim(file),
        Event::Opened { key, task } => state.with_wait(key, task),
        Event::Taken { key, task } => state.without_wait(key, task),
        Event::Awaited { key, task, waiter } => state.with_waiter(key, task, waiter),
        Event::Settled { key, task, came_to } => state.settled(key, task, came_to),
        Event::Named { file, name } => state.with_name(file, name),
        Event::Imported { parent, imported } => state.with_import(parent, imported),
    }
}

/// The state after one event and another.
pub open spec fn after_all<L, W>(state: StateView<L, W>, events: Seq<Event<L, W>>) -> StateView<L, W>
    decreases events.len(),
{
    if events.len() == 0 {
        state
    } else {
        after(after_all(state, events.drop_last()), events.last())
    }
}

/// Two maps say the same of `key`.
pub open spec fn agree<K, V>(a: Map<K, V>, b: Map<K, V>, key: K) -> bool {
    &&& a.contains_key(key) <==> b.contains_key(key)
    &&& a.contains_key(key) ==> a[key] == b[key]
}

/// Whatever happens, the session keeps its key, its port, its capped directory, the arguments to be
/// forwarded, and the count of calls.
pub proof fn law_settings_last<L, W>(state: StateView<L, W>, event: Event<L, W>)
    ensures
        after(state, event).key == state.key,
        after(state, event).port == state.port,
        after(state, event).cap == state.cap,
        after(state, event).forwarded == state.forwarded,
        after(state, event).calls == state.calls,
{
}

/// What can be awaited, what it came to, and who awaits it, lasts through everything that is not
/// about that very await: tasks that start or end, exports, claims, names, imports, and other
/// awaits.
pub proof fn law_awaits_last<L, W>(
    state: StateView<L, W>,
    event: Event<L, W>,
    id: (AsyncKey, TaskId),
)
    ensures
        !event.is_about_waits() ==> after(state, event).waits == state.waits,
        !event.is_about_waits() ==> after(state, event).awaited == state.awaited,
        !event.is_about_wait(id) ==> agree(after(state, event).waits, state.waits, id),
        !event.is_about_wait(id) ==> agree(after(state, event).awaited, state.awaited, id),
{
}

/// What a task exported lasts until that task exports again or ends.
pub proof fn law_exports_last<L, W>(
    state: StateView<L, W>,
    event: Event<L, W>,
    task: TaskId,
    success: bool,
)
    ensures
        !(event is Exported) && !(event is Ended) ==> after(state, event).exported
            == state.exported,
        !event.is_about_export(task) ==> agree(after(state, event).exported, state.exported, task),
        !event.is_about_export(task) ==> after(state, event).outcome(task, success)
            == state.outcome(task, success),
{
}

/// A task runs, led to by the same files, until it ends.
pub proof fn law_tasks_last<L, W>(state: StateView<L, W>, event: Event<L, W>, task: TaskId)
    ensures
        !(event is Started) && !(event is Ended) ==> after(state, event).running == state.running,
        !event.is_about_task(task) ==> agree(after(state, event).running, state.running, task),
{
}

/// A file that is known keeps its name, but for being named anew; and files become known in no
/// other way.
pub proof fn law_names_last<L, W>(state: StateView<L, W>, event: Event<L, W>, file: FileNameRef)
    ensures
        !(event is Named) ==> after(state, event).names == state.names,
        event matches Event::Named { file: at, name } ==> at != file ==> agree(
            after(state, event).names,
            state.names,
            file,
        ),
{
}

/// The imports of a session change only by an import, and only at the two files that it is about.
pub proof fn law_imports_last<L, W>(state: StateView<L, W>, event: Event<L, W>, file: FileNameRef)
    ensures
        !(event is Imported) ==> after(state, event).children == state.children,
        !(event is Imported) ==> after(state, event).importers == state.importers,
        event matches Event::Imported { parent, imported } ==> {
            &&& file != parent ==> agree(after(state, event).children, state.children, file)
            &&& file != imported ==> agree(after(state, event).importers, state.importers, file)
        },
{
}

/// What the cache holds of a file changes only by an import of that file through the cache, by the
/// end of the task that runs it into the cache, or where that is given up.
pub proof fn law_cache_lasts<L, W>(state: StateView<L, W>, event: Event<L, W>, file: FileNameRef)
    ensures
        !(event is Claimed) && !(event is Ended) && !(event is GivenUp) ==> after(state, event).cache
            == state.cache,
        !event.is_about_cache(file) ==> agree(after(state, event).cache, state.cache, file),
{
}

/// A task that has started runs, led to by the files that it was started with; one that has ended
/// does not, and has nothing exported.
pub proof fn law_tasks_start_and_end<L, W>(
    state: StateView<L, W>,
    task: TaskId,
    stack: Seq<FileNameRef>,
    file: FileNameRef,
    args: HurlinImportArgs,
    success: bool,
)
    ensures
        state.with_task(task, stack).running.contains_key(task),
        state.with_task(task, stack).running[task] == stack,
        !state.without_task(task, file, args, success).running.contains_key(task),
        !state.without_task(task, file, args, success).exported.contains_key(task),
{
}

/// What a task exports is kept: the last body, and the content type that came with it.
pub proof fn law_last_export_is_kept<L, W>(
    state: StateView<L, W>,
    task: TaskId,
    body: Seq<u8>,
    mime: Option<Seq<u8>>,
)
    ensures
        state.with_export(task, body, mime).exported.contains_key(task),
        state.with_export(task, body, mime).exported[task].0 == body,
        state.with_export(task, body, mime).exported[task].1 == mime,
{
}

/// A task that succeeded is never refused: it comes to what it exported, byte for byte, and to
/// nothing at all, with no content type, if it exported nothing. A task that failed is refused as a
/// failed dependency, whatever it exported.
pub proof fn law_success_is_answered<L, W>(state: StateView<L, W>, task: TaskId)
    ensures
        state.outcome(task, true) is Ok,
        ({
            let answer = replies::mirrored(state.outcome(task, true)->Ok_0);
            if state.exported.contains_key(task) {
                answer.0 == state.exported[task].1 && answer.1 == state.exported[task].0
            } else {
                answer.0 is None && answer.1.len() == 0
            }
        }),
        state.outcome(task, true)->Ok_0 is Some <==> state.exported.contains_key(task),
        state.outcome(task, false) is Err,
        state.outcome(task, false)->Err_0 == StatusCode::FailedDependency,
{
}

/// When a task ends that runs a file into the cache, the cache holds of the file what the task came
/// to, from then on whole; without the cache it holds what it held.
pub proof fn law_end_settles_the_cache<L, W>(
    state: StateView<L, W>,
    task: TaskId,
    file: FileNameRef,
    success: bool,
)
    ensures
        ({
            let settled = state.without_task(task, file, HurlinImportArgs::Normal, success);
            &&& settled.cache.contains_key(file)
            &&& settled.cache[file] matches SlotView::Done(entry) && entry == state.outcome(
                task,
                success,
            )
        }),
        state.without_task(task, file, HurlinImportArgs::Nocache, success).cache == state.cache,
{
}

/// An import through the cache of a file that is neither cached nor running claims it, with nobody
/// waiting yet; of one that is running, it waits behind those that wait already; of one that has
/// run, it changes nothing. Giving up undoes a claim and nothing else.
pub proof fn law_claims<L, W>(state: StateView<L, W>, file: FileNameRef, waker: L)
    ensures
        ({
            let claimed = state.with_claim(file, HurlinImportArgs::Normal, waker);
            if !state.cache.contains_key(file) {
                &&& claimed.cache.contains_key(file)
                &&& claimed.cache[file] matches SlotView::Running(queue) && queue.len() == 0
            } else {
                match state.cache[file] {
                    SlotView::Running(queue) => {
                        &&& claimed.cache.contains_key(file)
                        &&& claimed.cache[file] matches SlotView::Running(longer) && longer.len()
                            == queue.len() + 1 && longer.last() == waker && longer.drop_last()
                            == queue
                    },
                    SlotView::Done(_) => claimed.cache == state.cache,
                }
            }
        }),
        state.with_claim(file, HurlinImportArgs::Nocache, waker).cache == state.cache,
        ({
            let given_up = state.without_claim(file);
            if state.cache.contains_key(file) && state.cache[file] is Running {
                !given_up.cache.contains_key(file)
            } else {
                agree(given_up.cache, state.cache, file)
            }
        }),
{
    if state.cache.contains_key(file) {
        if let SlotView::Running(queue) = state.cache[file] {
            assert(queue.push(waker).drop_last() =~= queue);
        }
    }
}

/// What the decisions on imports go by is what the cache holds, no more and no less: of a running
/// file, everyone who waits.
pub proof fn law_slots_are_the_cache<L, W>(state: StateView<L, W>, file: FileNameRef)
    ensures
        state.slot(file) is Some <==> state.cache.contains_key(file),
        state.cache.contains_key(file) ==> state.slot(file)->0 == state.cache[file],
        state.is_running(file) <==> state.cache.contains_key(file) && state.cache[file] is Running,
        state.cache.contains_key(file) ==> (state.cache[file] matches SlotView::Running(queue)
            ==> state.queue_of(file) == queue),
        !state.is_running(file) ==> state.queue_of(file).len() == 0,
{
}

/// What is opened can be awaited and has not ended; what is taken cannot be awaited any more; what
/// is awaited before it has ended cannot be awaited any more either, and its waiter is remembered.
pub proof fn law_waits_open_and_close<L, W>(
    state: StateView<L, W>,
    key: AsyncKey,
    task: TaskId,
    waiter: W,
)
    ensures
        state.with_wait(key, task).waits.contains_key((key, task)),
        state.with_wait(key, task).waits[(key, task)] is None,
        state.with_wait(key, task).awaited == state.awaited,
        !state.without_wait(key, task).waits.contains_key((key, task)),
        state.without_wait(key, task).awaited == state.awaited,
        !state.with_waiter(key, task, waiter).waits.contains_key((key, task)),
        state.with_waiter(key, task, waiter).awaited.contains_key((key, task)),
        state.with_waiter(key, task, waiter).awaited[(key, task)] == waiter,
        state.in_use(key, task) <==> state.waits.contains_key((key, task))
            || state.awaited.contains_key((key, task)),
{
}

/// What something comes to is kept for whoever awaits it later, unless it is awaited already; then
/// its waiter is told and forgotten.
pub proof fn law_outcomes_are_kept<L, W>(
    state: StateView<L, W>,
    key: AsyncKey,
    task: TaskId,
    came_to: Result<(Option<Seq<u8>>, Seq<u8>), StatusCode>,
)
    ensures
        ({
            let settled = state.settled(key, task, came_to);
            let id = (key, task);
            if state.awaited.contains_key(id) {
                !settled.awaited.contains_key(id) && agree(settled.waits, state.waits, id)
            } else {
                &&& !settled.awaited.contains_key(id)
                &&& settled.waits.contains_key(id) <==> state.waits.contains_key(id)
                &&& state.waits.contains_key(id) ==> settled.waits[id] == (match state.waits[id] {
                    None => Some(came_to),
                    Some(earlier) => Some(earlier),
                })
            }
        }),
{
}

/// A file that is named has that name.
pub proof fn law_names_are_kept<L, W>(state: StateView<L, W>, file: FileNameRef, name: Seq<char>)
    ensures
        state.with_name(file, name).names.contains_key(file),
        state.with_name(file, name).names[file] == name,
{
}

/// An import is recorded behind the earlier ones, on both sides.
pub proof fn law_imports_are_recorded<L, W>(
    state: StateView<L, W>,
    parent: FileNameRef,
    imported: FileNameRef,
)
    ensures
        ({
            let after = state.with_import(parent, imported);
            &&& after.children.contains_key(parent)
            &&& after.children[parent].last() == imported
            &&& after.children[parent].drop_last() == (if state.children.contains_key(parent) {
                state.children[parent]
            } else {
                Seq::empty()
            })
            &&& after.children[parent].len() > 0
            &&& after.importers.contains_key(imported)
            &&& after.importers[imported].last() == parent
            &&& after.importers[imported].drop_last() == (if state.importers.contains_key(
                imported,
            ) {
                state.importers[imported]
            } else {
                Seq::empty()
            })
            &&& after.importers[imported].len() > 0
        }),
{
    let after = state.with_import(parent, imported);
    assert(after.children[parent].drop_last() =~= (if state.children.contains_key(parent) {
        state.children[parent]
    } else {
        Seq::empty()
    }));
    assert(after.importers[imported].drop_last() =~= (if state.importers.contains_key(imported) {
        state.importers[imported]
    } else {
        Seq::empty()
    }));
}

/// Through any number of events that are not about it, what can be awaited lasts, and so do what it
/// came to and who awaits it.
pub proof fn law_awaits_outlast<L, W>(
    state: StateView<L, W>,
    events: Seq<Event<L, W>>,
    id: (AsyncKey, TaskId),
)
    requires
        forall|i: int| 0 <= i < events.len() ==> !(#[trigger] events[i]).is_about_wait(id),
    ensures
        agree(after_all(state, events).waits, state.waits, id),
        agree(after_all(state, events).awaited, state.awaited, id),
    decreases events.len(),
{
    if events.len() > 0 {
        law_awaits_outlast(state, events.drop_last(), id);
        law_awaits_last(after_all(state, events.drop_last()), events.last(), id);
    }
}

/// Through any number of events that are not about it, what a task exported lasts.
pub proof fn law_exports_outlast<L, W>(
    state: StateView<L, W>,
    events: Seq<Event<L, W>>,
    task: TaskId,
)
    requires
        forall|i: int| 0 <= i < events.len() ==> !(#[trigger] events[i]).is_about_export(task),
    ensures
        agree(after_all(state, events).exported, state.exported, task),
        after_all(state, events).outcome(task, true) == state.outcome(task, true),
    decreases events.len(),
{
    if events.len() > 0 {
        law_exports_outlast(state, events.drop_last(), task);
        law_exports_last(after_all(state, events.drop_last()), events.last(), task, true);
    }
}

/// Whatever happens after a task has started something, and whatever happens after that has ended:
/// an await finds what it came to. If it is awaited before it has ended, then whatever happens in
/// between, the waiter is there to be told.
pub proof fn law_started_is_awaited<L, W>(
    state: StateView<L, W>,
    key: AsyncKey,
    task: TaskId,
    before: Seq<Event<L, W>>,
    came_to: Result<(Option<Seq<u8>>, Seq<u8>), StatusCode>,
    since: Seq<Event<L, W>>,
    waiter: W,
)
    requires
        !state.waits.contains_key((key, task)),
        !state.awaited.contains_key((key, task)),
        forall|i: int| 0 <= i < before.len() ==> !(#[trigger] before[i]).is_about_wait((key, task)),
        forall|i: int| 0 <= i < since.len() ==> !(#[trigger] since[i]).is_about_wait((key, task)),
    ensures
        ({
            let running = after_all(state.with_wait(key, task), before);
            let ended = after_all(running.settled(key, task, came_to), since);
            let awaited = after_all(running.with_waiter(key, task, waiter), since);
            &&& running.waits.contains_key((key, task)) && running.waits[(key, task)] is None
            &&& ended.waits.contains_key((key, task)) && ended.waits[(key, task)] == Some(came_to)
            &&& awaited.awaited.contains_key((key, task)) && awaited.awaited[(key, task)] == waiter
        }),
{
    let running = after_all(state.with_wait(key, task), before);
    law_awaits_outlast(state.with_wait(key, task), before, (key, task));
    law_awaits_outlast(running.settled(key, task, came_to), since, (key, task));
    law_awaits_outlast(running.with_waiter(key, task, waiter), since, (key, task));
}

/// What a task exported last reaches its importer, whatever others do until it ends.
pub proof fn law_export_reaches_the_importer<L, W>(
    state: StateView<L, W>,
    task: TaskId,
    body: Seq<u8>,
    mime: Option<Seq<u8>>,
    since: Seq<Event<L, W>>,
)
    requires
        forall|i: int| 0 <= i < since.len() ==> !(#[trigger] since[i]).is_about_export(task),
    ensures
        ({
            let ending = after_all(state.with_export(task, body, mime), since);
            &&& ending.outcome(task, true) is Ok
            &&& replies::mirrored(ending.outcome(task, true)->Ok_0).0 == mime
            &&& replies::mirrored(ending.outcome(task, true)->Ok_0).1 == body
        }),
{
    law_exports_outlast(state.with_export(task, body, mime), since, task);
}

/// The events can happen one after another: a task that ends settles the cache only for a file that
/// is being run into it.
pub open spec fn can_happen<L, W>(state: StateView<L, W>, events: Seq<Event<L, W>>) -> bool
    decreases events.len(),
{
    events.len() > 0 ==> {
        let so_far = after_all(state, events.drop_last());
        &&& can_happen(state, events.drop_last())
        &&& events.last() matches Event::Ended { file, args, .. } ==> args
            == HurlinImportArgs::Normal ==> so_far.cache.contains_key(file)
            && so_far.cache[file] is Running
    }
}

/// What a file came to stays in the cache, through any number of events that can happen.
pub proof fn law_cache_outlasts<L, W>(
    state: StateView<L, W>,
    events: Seq<Event<L, W>>,
    file: FileNameRef,
)
    requires
        state.cache.contains_key(file),
        state.cache[file] is Done,
        can_happen(state, events),
    ensures
        after_all(state, events).cache.contains_key(file),
        after_all(state, events).cache[file] == state.cache[file],
    decreases events.len(),
{
    if events.len() > 0 {
        law_cache_outlasts(state, events.drop_last(), file);
        let so_far = after_all(state, events.drop_last());
        law_cache_lasts(so_far, events.last(), file);
    }
}

/// Names outlast everything, as long as no name is given to a number that is in use for another.
pub proof fn law_names_outlast<L, W>(
    state: StateView<L, W>,
    events: Seq<Event<L, W>>,
    file: FileNameRef,
)
    requires
        state.names.contains_key(file),
        forall|i: int|
            0 <= i < events.len() ==> ((#[trigger] events[i]) matches Event::Named { file: at, name }
                ==> at == file ==> name == state.names[file]),
    ensures
        after_all(state, events).names.contains_key(file),
        after_all(state, events).names[file] == state.names[file],
    decreases events.len(),
{
    if events.len() > 0 {
        law_names_outlast(state, events.drop_last(), file);
        assert(events[events.len() - 1] == events.last());
        law_names_last(after_all(state, events.drop_last()), events.last(), file);
    }
}

} // verus!
