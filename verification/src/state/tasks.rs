//! How tasks start and end.

use vstd::prelude::*;

use crate::failure::{RequestError, StatusCode};
use crate::hexkey;
use crate::imports::{CacheSlot, HurlinImportArgs, SlotView};
use crate::intern::FileNameRef;
use crate::keys::TaskId;
use crate::paths;
use crate::replies;
use crate::replies::{CacheEntry, Response};
use crate::state;
use crate::state::{HurlinState, StateView};
use crate::text;
use crate::vars;
use crate::vars::Variable;

verus! {

impl<L, W> StateView<L, W> {
    /// The state once `task` runs, led to by `stack`.
    pub open spec fn with_task(self, task: TaskId, stack: Seq<FileNameRef>) -> Self {
        StateView { running: self.running.insert(task, stack), ..self }
    }

    /// Each of `draws` was drawn at random, and is the key of a running task.
    pub open spec fn all_running(self, draws: Seq<TaskId>) -> bool {
        forall|i: int|
            0 <= i < draws.len() ==> self.running.contains_key(#[trigger] draws[i])
                && hexkey::is_drawn(draws[i]@)
    }

    /// What a task that has ended came to.
    pub open spec fn outcome(self, task: TaskId, success: bool) -> Result<
        Option<(Seq<u8>, Option<Seq<u8>>)>,
        StatusCode,
    > {
        if !success {
            Err(StatusCode::FailedDependency)
        } else if self.exported.contains_key(task) {
            Ok(Some(self.exported[task]))
        } else {
            Ok(None)
        }
    }

    /// The state once the task that ran `file` has ended.
    pub open spec fn without_task(
        self,
        task: TaskId,
        file: FileNameRef,
        args: HurlinImportArgs,
        success: bool,
    ) -> Self {
        StateView {
            running: self.running.remove(task),
            exported: self.exported.remove(task),
            cache: if args == HurlinImportArgs::Normal {
                self.cache.insert(file, SlotView::Done(self.outcome(task, success)))
            } else {
                self.cache
            },
            ..self
        }
    }
}

/// A list of files once more.
pub(crate) fn copy_files(files: &Vec<FileNameRef>) -> (copy: Vec<FileNameRef>)
    ensures
        copy@ == files@,
{
    let copy = files.clone();
    assert(copy@ =~= files@);
    copy
}

impl<L, W> HurlinState<L, W> {
    /// The first of `draws` that no running task has.
    pub fn first_free_task_id(&self, draws: &Vec<TaskId>) -> (id: Option<TaskId>)
        ensures
            match id {
                Some(id) => exists|i: int|
                    {
                        &&& 0 <= i < draws.len()
                        &&& #[trigger] draws@[i] == id
                        &&& !self@.running.contains_key(id)
                        &&& forall|j: int|
                            0 <= j < i ==> self@.running.contains_key(#[trigger] draws@[j])
                    },
                None => forall|j: int|
                    0 <= j < draws.len() ==> self@.running.contains_key(#[trigger] draws@[j]),
            },
    {
        let mut i: usize = 0;
        while i < draws.len()
            invariant
                i <= draws.len(),
                forall|j: int| 0 <= j < i ==> self@.running.contains_key(#[trigger] draws@[j]),
            decreases draws.len() - i,
        {
            let id = draws[i];
            if !self.running_tasks.contains_key(&id) {
                assert(draws@[i as int] == id);
                return Some(id);
            }
            i += 1;
        }
        None
    }

    /// A random key that no running task has, after at most `tries` draws.
    pub fn fresh_task_id(&self, tries: u64) -> (id: Option<TaskId>)
        ensures
            match id {
                Some(id) => {
                    &&& tries > 0
                    &&& hexkey::is_key_text(id@)
                    &&& hexkey::is_drawn(id@)
                    &&& !self@.running.contains_key(id)
                },
                None => exists|draws: Seq<TaskId>|
                    draws.len() == tries && #[trigger] self@.all_running(draws),
            },
    {
        let ghost mut taken: Seq<TaskId> = Seq::empty();
        let mut left: u64 = tries;
        while left > 0
            invariant
                taken.len() + left == tries,
                self@.all_running(taken),
            decreases left,
        {
            let mut draw: Vec<TaskId> = Vec::new();
            draw.push(TaskId::new());
            if let Some(id) = self.first_free_task_id(&draw) {
                return Some(id);
            }
            proof {
                taken = taken.push(draw@[0]);
            }
            left -= 1;
        }
        None
    }

    /// Lets `id` run `file`, to which the files in `call_stack` led. If another task has that key,
    /// nothing changes.
    pub fn register_task(
        &mut self,
        id: TaskId,
        file: FileNameRef,
        call_stack: &Vec<FileNameRef>,
    ) -> (registered: bool)
        requires
            old(self).wf(),
            old(self)@.names.contains_key(file),
            state::all_known(old(self)@.names, call_stack@),
            state::nested(old(self)@.importers, call_stack@.push(file)),
        ensures
            final(self).wf(),
            registered == !old(self)@.running.contains_key(id),
            final(self)@ == (if registered {
                old(self)@.with_task(id, call_stack@.push(file))
            } else {
                old(self)@
            }),
    {
        if self.running_tasks.contains_key(&id) {
            return false;
        }
        let mut stack = copy_files(call_stack);
        stack.push(file);
        self.running_tasks.insert(id, stack);
        proof {
            assert(self@.running =~= old(self)@.running.insert(id, call_stack@.push(file)));
            assert(self@ =~= old(self)@.with_task(id, call_stack@.push(file)));
            assert(self@.consistent());
        }
        true
    }

    /// Lets a new task run `file`, to which the files in `call_stack` led. Its key is drawn at most
    /// `tries` times; if every draw is the key of another task, nothing changes.
    pub fn start_task(
        &mut self,
        file: FileNameRef,
        call_stack: &Vec<FileNameRef>,
        tries: u64,
    ) -> (task: Option<TaskId>)
        requires
            old(self).wf(),
            old(self)@.names.contains_key(file),
            state::all_known(old(self)@.names, call_stack@),
            state::nested(old(self)@.importers, call_stack@.push(file)),
        ensures
            final(self).wf(),
            match task {
                Some(task) => {
                    &&& tries > 0
                    &&& hexkey::is_key_text(task@)
                    &&& hexkey::is_drawn(task@)
                    &&& !old(self)@.running.contains_key(task)
                    &&& final(self)@ == old(self)@.with_task(task, call_stack@.push(file))
                },
                None => {
                    &&& exists|draws: Seq<TaskId>|
                        draws.len() == tries && #[trigger] old(self)@.all_running(draws)
                    &&& final(self)@ == old(self)@
                },
            },
    {
        match self.fresh_task_id(tries) {
            Some(id) => {
                self.register_task(id, file, call_stack);
                Some(id)
            },
            None => None,
        }
    }

    /// The path of a file as seen from outside the capped directory, and the directory of the file
    /// as seen from inside it.
    pub fn task_paths(&self, file: FileNameRef) -> (paths: (String, Option<String>))
        requires
            self@.names.contains_key(file),
        ensures
            paths.0@ == self@.rooted(file),
            paths.0@ == paths::joined(self@.cap, self@.names[file]),
            text::optional(paths.1) == paths::parent_of(self@.names[file]),
    {
        let name = self.intern.resolve(file);
        (self.cap_dir.to_root(name.as_str()), paths::parent(name.as_str()))
    }

    /// The arguments with which hurl runs `file` as `task`: the variables that every task gets
    /// come after `variables`. The call is counted.
    pub fn hurlin_spawn(
        &mut self,
        file: &str,
        base_dir: &str,
        variables: Vec<Variable>,
        task: &TaskId,
    ) -> (line: Vec<String>)
        requires
            old(self).wf(),
        ensures
            final(self).wf(),
            final(self)@ == (StateView { calls: old(self)@.calls.wrapping_add(1), ..old(self)@ }),
            text::texts(line@) == vars::command_line(
                old(self)@.forwarded,
                vars::variables(variables@) + vars::injected(
                    old(self)@.port as nat,
                    old(self)@.key@,
                    task@,
                    base_dir@,
                ),
                file@,
            ),
    {
        self.hurl_calls = self.hurl_calls.wrapping_add(1);
        proof {
            assert(self@ =~= StateView { calls: self@.calls, ..old(self)@ });
            assert(self@.consistent());
        }
        let ghost given = vars::variables(variables@);
        let mut list = variables;
        let mut injected = vars::injected_variables(self.port, &self.key, task, base_dir);
        let ghost every = vars::variables(injected@);
        list.append(&mut injected);
        assert(vars::variables(list@) =~= given + every);
        vars::hurl_call(file, &list, &self.hurl_args)
    }

    /// The arguments with which hurl runs `file` as `task`, as the session has it: with the path of
    /// the file as seen from outside the capped directory, and the services of the session at the
    /// directory of the file. The call is counted. `None`, and nothing changes, if the name of the
    /// file leaves it without a directory.
    pub fn task_call(&mut self, file: FileNameRef, task: &TaskId) -> (line: Option<Vec<String>>)
        requires
            old(self).wf(),
            old(self)@.names.contains_key(file),
        ensures
            final(self).wf(),
            match (line, paths::parent_of(old(self)@.names[file])) {
                (Some(line), Some(base_dir)) => {
                    &&& text::texts(line@) == vars::command_line(
                        old(self)@.forwarded,
                        vars::injected(
                            old(self)@.port as nat,
                            old(self)@.key@,
                            task@,
                            base_dir,
                        ),
                        old(self)@.rooted(file),
                    )
                    &&& line@.last()@ == paths::joined(old(self)@.cap, old(self)@.names[file])
                    &&& final(self)@ == (StateView {
                        calls: old(self)@.calls.wrapping_add(1),
                        ..old(self)@
                    })
                },
                (None, None) => final(self)@ == old(self)@,
                _ => false,
            },
    {
        let (path, base_dir) = self.task_paths(file);
        let base_dir = match base_dir {
            Some(base_dir) => base_dir,
            None => return None,
        };
        let variables: Vec<Variable> = Vec::new();
        let ghost none = vars::variables(variables@);
        let line = self.hurlin_spawn(path.as_str(), base_dir.as_str(), variables, task);
        proof {
            let every = vars::injected(
                old(self)@.port as nat,
                old(self)@.key@,
                task@,
                base_dir@,
            );
            assert(none + every =~= every);
            assert(text::texts(line@).last() == line@.last()@);
        }
        Some(line)
    }

    /// Ends the task that ran `file`: answers with what it exported, and settles the cache if
    /// `args` say so. What a task exported is lost if it failed. The imports that waited for the
    /// file are to be woken.
    pub fn finish_task(
        &mut self,
        task: TaskId,
        file: FileNameRef,
        args: HurlinImportArgs,
        success: bool,
    ) -> (ended: (Result<Response, RequestError>, Vec<L>))
        requires
            old(self).wf(),
            old(self)@.names.contains_key(file),
            args == HurlinImportArgs::Normal ==> old(self)@.is_running(file),
        ensures
            final(self).wf(),
            final(self)@ == old(self)@.without_task(task, file, args, success),
            match (ended.0, old(self)@.outcome(task, success)) {
                (Ok(response), Ok(export)) => response@ == replies::mirrored(export),
                (Err(error), Err(status)) => {
                    &&& error.answer() == status
                    &&& error matches RequestError::TaskFailed { task: failed, file: path } && failed
                        == task && path@ == old(self)@.rooted(file)
                },
                _ => false,
            },
            // what was exported, byte for byte, or nothing at all
            ended.0 is Ok <==> success,
            ended.0 matches Ok(response) ==> if old(self)@.exported.contains_key(task) {
                &&& response.body@ == old(self)@.exported[task].0
                &&& replies::optional(response.content_type) == old(self)@.exported[task].1
            } else {
                response.body@.len() == 0 && response.content_type is None
            },
            // nothing else is touched
            final(self)@.waits == old(self)@.waits,
            final(self)@.awaited == old(self)@.awaited,
            ended.1@ == (if args == HurlinImportArgs::Normal {
                old(self)@.queue_of(file)
            } else {
                Seq::empty()
            }),
    {
        let path = self.root_path(file);
        self.running_tasks.remove(&task);
        let export = self.exports.remove(&task);
        let ghost outcome = old(self)@.outcome(task, success);
        let mut woken: Vec<L> = Vec::new();
        if let HurlinImportArgs::Normal = args {
            let entry: CacheEntry = if !success {
                Err(StatusCode::FailedDependency)
            } else {
                match &export {
                    Some(export) => Ok(Some(export.copy())),
                    None => Ok(None),
                }
            };
            assert(replies::entry_view(entry) == outcome);
            if let Some(CacheSlot::Running(queue)) = self.import_cache.remove(&file) {
                woken = queue;
            }
            self.import_cache.insert(file, CacheSlot::Done(entry));
            assert(self@.cache =~= old(self)@.cache.insert(file, SlotView::Done(outcome)));
        }
        proof {
            assert(self@.running =~= old(self)@.running.remove(task));
            assert(self@.exported =~= old(self)@.exported.remove(task));
            assert(self@ =~= old(self)@.without_task(task, file, args, success));
            assert(self@.consistent());
        }
        if !success {
            return (Err(RequestError::TaskFailed { task, file: path }), woken);
        }
        (Ok(Response::mirror(export)), woken)
    }
}

} // verus!
