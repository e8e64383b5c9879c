//! What holds of a session from one request to the next.

use vstd::prelude::*;

use crate::failure::{RequestError, StatusCode};
use crate::import_tree;
use crate::imports;
use crate::imports::{DecisionView, HurlinImportArgs, SlotView};
use crate::intern::FileNameRef;
use crate::keys::{AsyncKey, TaskId};
use crate::paths;
use crate::replies;
use crate::state;
use crate::state::{HurlinState, StateView};

pub mod calls;
pub mod events;
pub mod texts;

verus! {

/// Once a task has run to its end, an import of the same file is answered from the cache as the
/// import that ran the task was: with the same export, with nothing, or with the same refusal. This
/// is so for imports that waited for the task as for any later ones.
pub proof fn law_cache_answers_like_the_run<L, W>(
    state: StateView<L, W>,
    task: TaskId,
    file: FileNameRef,
    success: bool,
)
    ensures
        ({
            let after = state.without_task(task, file, HurlinImportArgs::Normal, success);
            imports::decision(HurlinImportArgs::Normal, after.slot(file)) == (match state.outcome(
                task,
                success,
            ) {
                Ok(export) => DecisionView::Reply(replies::mirrored(export)),
                Err(status) => DecisionView::Refuse(status),
            })
        }),
{
}

/// An import without the cache runs the file, whatever the cache holds, and leaves the cache as it
/// was, at its start and at its end.
pub proof fn law_nocache_leaves_the_cache<L, W>(
    state: StateView<L, W>,
    task: TaskId,
    file: FileNameRef,
    waker: L,
    success: bool,
)
    ensures
        imports::decision(HurlinImportArgs::Nocache, state.slot(file)) == DecisionView::Run,
        state.with_claim(file, HurlinImportArgs::Nocache, waker) == state,
        state.without_task(task, file, HurlinImportArgs::Nocache, success).cache == state.cache,
{
}

/// While an import runs a file into the cache, other imports of the file wait for it: no second one
/// runs it, and each is woken when the first ends.
pub proof fn law_one_run_at_a_time<L, W>(
    state: StateView<L, W>,
    file: FileNameRef,
    first: L,
    second: L,
)
    requires
        imports::decision(HurlinImportArgs::Normal, state.slot(file)) == DecisionView::Run,
    ensures
        ({
            let claimed = state.with_claim(file, HurlinImportArgs::Normal, first);
            let queued = claimed.with_claim(file, HurlinImportArgs::Normal, second);
            &&& imports::decision(HurlinImportArgs::Normal, claimed.slot(file))
                == DecisionView::Wait
            &&& imports::decision(HurlinImportArgs::Normal, queued.slot(file)) == DecisionView::Wait
            &&& queued.queue_of(file) == claimed.queue_of(file).push(second)
        }),
{
}

/// A file that is being run into the cache stays so, and those that wait for it keep their places,
/// whatever happens next, until it has been run or it is given up to run it.
pub proof fn law_running_files_stay_claimed<L, W>(
    state: StateView<L, W>,
    file: FileNameRef,
    other: FileNameRef,
    name: Seq<char>,
    task: TaskId,
    stack: Seq<FileNameRef>,
    key: AsyncKey,
    waiter: W,
    came_to: Result<(Option<Seq<u8>>, Seq<u8>), StatusCode>,
    waker: L,
    body: Seq<u8>,
    mime: Option<Seq<u8>>,
    args: HurlinImportArgs,
    success: bool,
)
    requires
        state.is_running(file),
        other != file,
    ensures
        state.with_claim(file, args, waker).is_running(file),
        state.queue_of(file).is_prefix_of(state.with_claim(file, args, waker).queue_of(file)),
        state.with_claim(other, args, waker).slot(file) == state.slot(file),
        state.without_claim(other).slot(file) == state.slot(file),
        state.without_task(task, other, args, success).slot(file) == state.slot(file),
        state.without_task(task, file, HurlinImportArgs::Nocache, success).slot(file)
            == state.slot(file),
        state.with_task(task, stack).slot(file) == state.slot(file),
        state.with_wait(key, task).slot(file) == state.slot(file),
        state.with_waiter(key, task, waiter).slot(file) == state.slot(file),
        state.settled(key, task, came_to).slot(file) == state.slot(file),
        state.without_wait(key, task).slot(file) == state.slot(file),
        state.with_export(task, body, mime).slot(file) == state.slot(file),
        state.with_name(other, name).slot(file) == state.slot(file),
        state.with_import(other, file).slot(file) == state.slot(file),
{
}

/// If it is given up to run a file into the cache, the next import of the file runs it.
pub proof fn law_given_up_files_are_run<L, W>(state: StateView<L, W>, file: FileNameRef)
    requires
        state.is_running(file),
    ensures
        imports::decision(HurlinImportArgs::Normal, state.without_claim(file).slot(file))
            == DecisionView::Run,
{
}

/// What a file came to stays in the cache, whatever happens next. A task that ends settles the
/// cache only for a file that is being run into it.
pub proof fn law_cache_entries_stay<L, W>(
    state: StateView<L, W>,
    file: FileNameRef,
    other: FileNameRef,
    ended: FileNameRef,
    name: Seq<char>,
    task: TaskId,
    stack: Seq<FileNameRef>,
    key: AsyncKey,
    waiter: W,
    came_to: Result<(Option<Seq<u8>>, Seq<u8>), StatusCode>,
    waker: L,
    body: Seq<u8>,
    mime: Option<Seq<u8>>,
    asked: HurlinImportArgs,
    args: HurlinImportArgs,
    success: bool,
)
    requires
        state.slot(file) matches Some(SlotView::Done(_)),
        args == HurlinImportArgs::Normal ==> state.is_running(ended),
    ensures
        state.with_claim(other, asked, waker).slot(file) == state.slot(file),
        state.without_claim(other).slot(file) == state.slot(file),
        state.without_task(task, ended, args, success).slot(file) == state.slot(file),
        state.with_task(task, stack).slot(file) == state.slot(file),
        state.with_wait(key, task).slot(file) == state.slot(file),
        state.with_waiter(key, task, waiter).slot(file) == state.slot(file),
        state.settled(key, task, came_to).slot(file) == state.slot(file),
        state.without_wait(key, task).slot(file) == state.slot(file),
        state.with_export(task, body, mime).slot(file) == state.slot(file),
        state.with_name(other, name).slot(file) == state.slot(file),
        state.with_import(other, file).slot(file) == state.slot(file),
{
}

/// An import answers with what the imported task exported last, body and content type alike.
pub proof fn law_export_is_mirrored<L, W>(
    state: StateView<L, W>,
    task: TaskId,
    body: Seq<u8>,
    mime: Option<Seq<u8>>,
)
    ensures
        ({
            let after = state.with_export(task, body, mime);
            &&& after.outcome(task, true) == Ok::<Option<(Seq<u8>, Option<Seq<u8>>)>, StatusCode>(
                Some((body, mime)),
            )
            &&& replies::mirrored(Some((body, mime))) == (mime, body)
        }),
{
}

/// What a task exports reaches nobody else: the outcome of other tasks stays the same.
pub proof fn law_export_is_private<L, W>(
    state: StateView<L, W>,
    task: TaskId,
    other: TaskId,
    body: Seq<u8>,
    mime: Option<Seq<u8>>,
    success: bool,
)
    requires
        other != task,
    ensures
        state.with_export(task, body, mime).outcome(other, success) == state.outcome(
            other,
            success,
        ),
{
}

/// A task that failed is answered as a failed dependency, whatever it exported before, and its
/// export is gone.
pub proof fn law_failure_drops_the_export<L, W>(
    state: StateView<L, W>,
    task: TaskId,
    file: FileNameRef,
    args: HurlinImportArgs,
    body: Seq<u8>,
    mime: Option<Seq<u8>>,
)
    ensures
        state.with_export(task, body, mime).outcome(task, false) == Err::<
            Option<(Seq<u8>, Option<Seq<u8>>)>,
            StatusCode,
        >(StatusCode::FailedDependency),
        !state.with_export(task, body, mime).without_task(
            task,
            file,
            args,
            false,
        ).exported.contains_key(task),
{
}

/// An import that the cache refuses is refused as a failed dependency.
pub proof fn law_cached_refusals<L, W>(
    state: HurlinState<L, W>,
    file: FileNameRef,
    args: HurlinImportArgs,
)
    requires
        state.wf(),
    ensures
        imports::decision(args, state@.slot(file)) matches DecisionView::Refuse(status) ==> status
            == StatusCode::FailedDependency,
{
}

/// A path has one number: whenever it is imported, it is the same file that is decided on.
pub proof fn law_one_number_for_a_path<L, W>(
    state: HurlinState<L, W>,
    path: Seq<char>,
    known: FileNameRef,
    imported: FileNameRef,
)
    requires
        state.wf(),
        state@.names.contains_key(known),
        state@.names[known] == path,
        state@.numbers(imported, path),
    ensures
        imported == known,
{
    assert(state@.names.contains_value(path));
    state.lemma_names_differ(known, imported);
}

/// Two imports of one path run its file once. The first finds nothing in the cache, claims the file
/// and runs it. The second, made while the file runs, waits for it, and is woken when it ends; then
/// it is answered as the first was, and so is any import of the path after that. Between them
/// anything may happen that leaves the file claimed, and the path under its number.
pub proof fn law_two_imports_run_once<L, W>(
    before: StateView<L, W>,
    path: Seq<char>,
    file: FileNameRef,
    first: L,
    meanwhile: HurlinState<L, W>,
    again: FileNameRef,
    second: L,
    last: StateView<L, W>,
    task: TaskId,
    success: bool,
    after: HurlinState<L, W>,
    later: FileNameRef,
)
    requires
        // the first import
        before.numbers(file, path),
        before.slot(file) is None,
        // the second, while the file runs
        meanwhile.wf(),
        meanwhile@.names.contains_key(file),
        meanwhile@.names[file] == path,
        meanwhile@.is_running(file),
        meanwhile@.numbers(again, path),
        // the end of the run, when others may wait as well
        last.is_running(file),
        meanwhile@.with_claim(again, HurlinImportArgs::Normal, second).queue_of(file).is_prefix_of(
            last.queue_of(file),
        ),
        // the second once more, or any later one
        after.wf(),
        after@.names.contains_key(file),
        after@.names[file] == path,
        after@.slot(file) == last.without_task(
            task,
            file,
            HurlinImportArgs::Normal,
            success,
        ).slot(file),
        after@.numbers(later, path),
    ensures
        imports::decision(HurlinImportArgs::Normal, before.slot(file)) == DecisionView::Run,
        before.with_name(file, path).with_claim(
            file,
            HurlinImportArgs::Normal,
            first,
        ).is_running(file),
        again == file,
        imports::decision(HurlinImportArgs::Normal, meanwhile@.slot(again)) == DecisionView::Wait,
        last.queue_of(file).contains(second),
        later == file,
        imports::decision(HurlinImportArgs::Normal, after@.slot(later)) == imports::cached(
            last.outcome(task, success),
        ),
{
    law_one_number_for_a_path(meanwhile, path, file, again);
    law_one_number_for_a_path(after, path, file, later);
    let queued = meanwhile@.with_claim(again, HurlinImportArgs::Normal, second).queue_of(file);
    let place = queued.len() - 1;
    assert(queued[place] == second);
    assert(last.queue_of(file)[place] == second);
}

/// What a task has started can be awaited under the key that it was given, and has not ended.
pub proof fn law_await_finds_what_was_started<L, W>(
    state: StateView<L, W>,
    key: AsyncKey,
    task: TaskId,
)
    ensures
        state.with_wait(key, task).awaits(key@, task),
        state.with_wait(key, task).waits[(key, task)] is None,
{
    assert(state.with_wait(key, task).waits.contains_key((key, task)));
}

/// An await is answered with what the awaited task came to. If the task ends first, that is kept
/// until it is awaited; if it is awaited first, whoever awaits it is the one to be told. Either way
/// nothing is left to be awaited under the key.
pub proof fn law_await_answers_like_the_run<L, W>(
    state: StateView<L, W>,
    key: AsyncKey,
    task: TaskId,
    came_to: Result<(Option<Seq<u8>>, Seq<u8>), StatusCode>,
    waiter: W,
)
    requires
        !state.in_use(key, task),
    ensures
        ({
            let ended = state.with_wait(key, task).settled(key, task, came_to);
            &&& ended.awaits(key@, task)
            &&& ended.waits[(key, task)] == Some(came_to)
            &&& !ended.awaited.contains_key((key, task))
            &&& ended.without_wait(key, task) == state
        }),
        ({
            let waiting = state.with_wait(key, task).with_waiter(key, task, waiter);
            &&& waiting.awaited.contains_key((key, task))
            &&& waiting.awaited[(key, task)] == waiter
            &&& waiting.settled(key, task, came_to) == state
        }),
{
    let ended = state.with_wait(key, task).settled(key, task, came_to);
    assert(ended.waits.contains_key((key, task)));
    assert(ended.without_wait(key, task).waits =~= state.waits);
    assert(ended.without_wait(key, task) =~= state);
    let waiting = state.with_wait(key, task).with_waiter(key, task, waiter);
    assert(waiting.settled(key, task, came_to).waits =~= state.waits);
    assert(waiting.settled(key, task, came_to).awaited =~= state.awaited);
    assert(waiting.settled(key, task, came_to) =~= state);
}

/// What is awaited, and what it came to, is no concern of other awaits, be they of another key or
/// of another task.
pub proof fn law_awaits_are_independent<L, W>(
    state: StateView<L, W>,
    id: (AsyncKey, TaskId),
    key: AsyncKey,
    task: TaskId,
    came_to: Result<(Option<Seq<u8>>, Seq<u8>), StatusCode>,
    waiter: W,
)
    requires
        id != (key, task),
    ensures
        ({
            let others = |after: StateView<L, W>|
                {
                    &&& after.waits.contains_key(id) == state.waits.contains_key(id)
                    &&& after.waits[id] == state.waits[id]
                    &&& after.awaited.contains_key(id) == state.awaited.contains_key(id)
                    &&& after.awaited[id] == state.awaited[id]
                };
            &&& others(state.with_wait(key, task))
            &&& others(state.without_wait(key, task))
            &&& others(state.with_waiter(key, task, waiter))
            &&& others(state.settled(key, task, came_to))
        }),
{
}

/// Nothing can be awaited twice, be it that it was answered at once or is waited for.
pub proof fn law_await_once<L, W>(
    state: StateView<L, W>,
    key: AsyncKey,
    task: TaskId,
    waiter: W,
    came_to: Result<(Option<Seq<u8>>, Seq<u8>), StatusCode>,
)
    ensures
        !state.without_wait(key, task).awaits(key@, task),
        !state.with_waiter(key, task, waiter).awaits(key@, task),
        !state.with_waiter(key, task, waiter).settled(key, task, came_to).awaits(key@, task),
{
    let after = state.without_wait(key, task);
    if after.awaits(key@, task) {
        let other = choose|other: AsyncKey|
            after.waits.contains_key((other, task)) && #[trigger] other@ == key@;
        AsyncKey::law_same_text_same_key(other, key);
    }
    assert(state.with_waiter(key, task, waiter).waits == after.waits);
}

/// An await key is of no use to a task other than the one that it was given to.
pub proof fn law_await_keys_are_private<L, W>(
    state: StateView<L, W>,
    key: AsyncKey,
    task: TaskId,
    other: TaskId,
    asked: Seq<char>,
)
    requires
        other != task,
    ensures
        state.with_wait(key, task).awaits(asked, other) <==> state.awaits(asked, other),
{
    let after = state.with_wait(key, task);
    if after.awaits(asked, other) {
        let id = choose|id: AsyncKey|
            after.waits.contains_key((id, other)) && #[trigger] id@ == asked;
        assert(state.waits.contains_key((id, other)));
    }
    if state.awaits(asked, other) {
        let id = choose|id: AsyncKey|
            state.waits.contains_key((id, other)) && #[trigger] id@ == asked;
        assert(after.waits.contains_key((id, other)));
    }
}

/// Without the key of the session no request passes.
pub proof fn law_session_key_is_needed<L, W>(
    state: StateView<L, W>,
    key: Seq<char>,
    task: Seq<char>,
)
    requires
        key != state.key@,
    ensures
        state.refusal(key, task) is Some,
{
}

/// A task can make requests while it runs, and no longer.
pub proof fn law_requests_only_while_running<L, W>(
    state: StateView<L, W>,
    task: TaskId,
    stack: Seq<FileNameRef>,
    file: FileNameRef,
    args: HurlinImportArgs,
    success: bool,
)
    requires
        crate::hexkey::is_key_text(state.key@),
        crate::hexkey::is_key_text(task@),
    ensures
        state.with_task(task, stack).refusal(state.key@, task@) is None,
        state.without_task(task, file, args, success).refusal(state.key@, task@) == Some(
            RequestError::UnknownTask,
        ),
{
    assert(state.with_task(task, stack).running.contains_key(task));
    let after = state.without_task(task, file, args, success);
    if after.runs(task@) {
        let other = choose|other: TaskId|
            after.running.contains_key(other) && #[trigger] other@ == task@;
        TaskId::law_same_text_same_key(other, task);
    }
}

/// A request passes exactly if it carries the key of the session and the key of a running task, both
/// spelled as keys are. Of what is wrong with another, the first is held against it: the spelling of
/// the session key, the spelling of the task, the session key itself, the task itself.
pub proof fn law_requests_are_judged<L, W>(
    state: StateView<L, W>,
    key: Seq<char>,
    task: Seq<char>,
)
    ensures
        ({
            let spelled = crate::hexkey::is_key_text(key);
            let named = crate::hexkey::is_key_text(task);
            let known = exists|id: TaskId|
                state.running.contains_key(id) && #[trigger] id@ == task;
            let judged = state.refusal(key, task);
            &&& judged is None <==> spelled && named && key == state.key@ && known
            &&& judged == Some(RequestError::BadHurlinKey) <==> !spelled
            &&& judged == Some(RequestError::BadTaskId) <==> spelled && !named
            &&& judged == Some(RequestError::WrongHurlinKey) <==> spelled && named && key
                != state.key@
            &&& judged == Some(RequestError::UnknownTask) <==> spelled && named && key
                == state.key@ && !known
        }),
{
}

/// What counts as drawn in vain is what is in use: keys of running tasks, and keys that the task
/// awaits something under, or can.
pub proof fn law_vain_draws<L, W>(
    state: StateView<L, W>,
    ids: Seq<TaskId>,
    keys: Seq<AsyncKey>,
    task: TaskId,
    i: int,
)
    ensures
        state.all_running(ids) && 0 <= i < ids.len() ==> state.running.contains_key(ids[i])
            && crate::hexkey::is_drawn(ids[i]@),
        state.all_in_use(keys, task) && 0 <= i < keys.len() ==> crate::hexkey::is_drawn(keys[i]@)
            && (state.waits.contains_key((keys[i], task)) || state.awaited.contains_key(
            (keys[i], task),
        )),
{
}

/// Something can be awaited under a key exactly if it was started for the task under it and has not
/// been claimed.
pub proof fn law_awaits_go_by_the_key<L, W>(
    state: StateView<L, W>,
    key: AsyncKey,
    task: TaskId,
)
    ensures
        state.awaits(key@, task) <==> state.waits.contains_key((key, task)),
{
    if state.awaits(key@, task) {
        let other = choose|other: AsyncKey|
            state.waits.contains_key((other, task)) && #[trigger] other@ == key@;
        AsyncKey::law_same_text_same_key(other, key);
    }
}

/// Every running task was led to by files of the session, its own at least.
pub proof fn law_running_files_are_known<L, W>(state: HurlinState<L, W>, task: TaskId, i: int)
    requires
        state.wf(),
        state@.running.contains_key(task),
    ensures
        state@.running[task].len() > 0,
        0 <= i < state@.running[task].len() ==> state@.names.contains_key(state@.running[task][i]),
{
    assert(state::all_known(state@.names, state@.running[task]));
}

/// What is being awaited cannot be awaited by anyone else.
pub proof fn law_awaited_is_claimed<L, W>(state: HurlinState<L, W>, key: AsyncKey, task: TaskId)
    requires
        state.wf(),
        state@.awaited.contains_key((key, task)),
    ensures
        !state@.awaits(key@, task),
{
    law_awaits_go_by_the_key(state@, key, task);
}

/// The report of a cycle names the file that was to be imported where it lies in the capped
/// directory, and then, from the importing file to the imported one, each file where it lies there,
/// every one imported by the next.
pub proof fn law_cycles_are_reported<L, W>(
    state: StateView<L, W>,
    error: RequestError,
    parent: FileNameRef,
    imported: FileNameRef,
) -> (path: Seq<FileNameRef>)
    requires
        state.is_cycle_report(error, parent, imported),
    ensures
        error matches RequestError::ImportCycle { imported: at, chain } && {
            &&& at@ == paths::joined(state.cap, state.names[imported])
            &&& chain.len() == path.len()
            &&& forall|i: int|
                0 <= i < path.len() ==> (#[trigger] chain@[i])@ == paths::joined(
                    state.cap,
                    state.names[path[i]],
                )
        },
        path.len() > 0,
        path[0] == parent,
        path.last() == imported,
        forall|i: int|
            #![trigger path[i]]
            0 <= i < path.len() - 1 ==> state.importers.contains_key(path[i])
                && state.importers[path[i]].contains(path[i + 1]),
        import_tree::follows_latest(state.importers, path, imported),
{
    let chain = error->chain;
    let path = choose|path: Seq<FileNameRef>|
        {
            &&& #[trigger] import_tree::chain_between(state.importers, path, parent, imported)
            &&& import_tree::follows_latest(state.importers, path, imported)
            &&& crate::text::texts(chain@) == state.all_rooted(path)
        };
    assert(crate::text::texts(chain@).len() == chain.len());
    assert forall|i: int| 0 <= i < path.len() implies (#[trigger] chain@[i])@ == paths::joined(
        state.cap,
        state.names[path[i]],
    ) by {
        assert(crate::text::texts(chain@)[i] == chain@[i]@);
    }
    assert forall|i: int|
        #![trigger path[i]]
        0 <= i < path.len() - 1 implies state.importers.contains_key(path[i])
        && state.importers[path[i]].contains(path[i + 1]) by {
        import_tree::law_chains(state.importers, path, parent, imported, i);
    }
    path
}

/// An import is refused as unauthorized, as a failed dependency or as an error of the server, and in
/// no other way.
pub proof fn law_import_refusals(status: StatusCode)
    ensures
        state::imports::is_import_refusal(status) <==> status.number() == 401 || status.number()
            == 424 || status.number() == 500,
{
}

/// A name goes by the number that it has, if it has one, and else by a number that no name has.
pub proof fn law_numbering<L, W>(state: StateView<L, W>, file: FileNameRef, name: Seq<char>)
    requires
        state.numbers(file, name),
    ensures
        state.names.contains_key(file) ==> state.names[file] == name,
        !state.names.contains_key(file) ==> forall|other: FileNameRef|
            state.names.contains_key(other) ==> #[trigger] state.names[other] != name,
{
    if !state.names.contains_key(file) {
        assert forall|other: FileNameRef|
            state.names.contains_key(other) implies #[trigger] state.names[other] != name by {
            if state.names[other] == name {
                assert(state.names.contains_value(name));
            }
        }
    }
}

/// The end of a task is no concern of the other tasks.
pub proof fn law_tasks_are_independent<L, W>(
    state: StateView<L, W>,
    task: TaskId,
    other: TaskId,
    file: FileNameRef,
    args: HurlinImportArgs,
    success: bool,
)
    requires
        other != task,
        state.running.contains_key(other),
    ensures
        ({
            let after = state.without_task(task, file, args, success);
            &&& after.running.contains_key(other)
            &&& after.running[other] == state.running[other]
            &&& after.outcome(other, true) == state.outcome(other, true)
        }),
{
}

/// A number once given to a file stays the number of that file.
pub proof fn law_numbers_stay<L, W>(
    state: StateView<L, W>,
    file: FileNameRef,
    name: Seq<char>,
    known: FileNameRef,
)
    requires
        state.numbers(file, name),
        state.names.contains_key(known),
    ensures
        state.with_name(file, name).names.contains_key(known),
        state.with_name(file, name).names[known] == state.names[known],
{
}

/// No file is run from within itself: none of the files that led to a running task occurs twice.
pub proof fn law_no_file_inside_itself<L, W>(state: HurlinState<L, W>, task: TaskId)
    requires
        state.wf(),
        state@.running.contains_key(task),
    ensures
        state@.running[task].no_duplicates(),
{
    state.lemma_imports_acyclic();
    let importers = state@.importers;
    let stack = state@.running[task];
    assert(state::nested(importers, stack));
    assert forall|i: int, j: int| 0 <= i < j < stack.len() implies stack[i] != stack[j] by {
        let part = stack.subrange(i, j + 1).reverse();
        assert forall|a: int, b: int| 0 <= a && b == a + 1 && b < part.len() implies import_tree::linked(
            importers,
            #[trigger] part[a],
            #[trigger] part[b],
        ) by {
            assert(part[a] == stack[j - a]);
            assert(part[b] == stack[j - b]);
            assert(import_tree::linked(importers, stack[j - a], stack[j - b]));
        }
        assert(import_tree::is_chain(importers, part));
        assert(part[0] == stack[j]);
        assert(part.last() == stack[i]);
    }
}

} // verus!
