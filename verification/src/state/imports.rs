//! What imports start from, and how they are decided on.

use vstd::prelude::*;

use crate::failure::{RequestError, StatusCode};
use crate::import_tree;
use crate::imports;
use crate::imports::{CacheSlot, HurlinImportArgs, ImportDecision, SlotView};
use crate::intern::FileNameRef;
use crate::keys::TaskId;
use crate::paths;
use crate::replies::Response;
use crate::state;
use crate::state::tasks::copy_files;
use crate::state::{HurlinState, StateView};
use crate::text;

verus! {

broadcast use text::lemma_texts_push;

/// What an import starts from: the files that led to the importing task, its own file, and the
/// file to import.
pub struct CallstackInfo {
    pub call_stack: Vec<FileNameRef>,
    pub task_name: FileNameRef,
    pub imports: FileNameRef,
}

/// The statuses that a refused import is answered with.
pub open spec fn is_import_refusal(status: StatusCode) -> bool {
    ||| status == StatusCode::Unauthorized
    ||| status == StatusCode::InternalServerError
    ||| status == StatusCode::FailedDependency
}

impl<L, W> StateView<L, W> {
    /// The path of a file, as seen from outside the capped directory.
    pub open spec fn rooted(self, file: FileNameRef) -> Seq<char> {
        paths::joined(self.cap, self.names[file])
    }

    /// The paths of files, as seen from outside the capped directory.
    pub open spec fn all_rooted(self, files: Seq<FileNameRef>) -> Seq<Seq<char>> {
        files.map_values(|file: FileNameRef| self.rooted(file))
    }

    /// `file` is the number of `name`, be it a new one or the one that `name` has.
    pub open spec fn numbers(self, file: FileNameRef, name: Seq<char>) -> bool {
        &&& self.names.contains_key(file) <==> self.names.contains_value(name)
        &&& self.names.contains_key(file) ==> self.names[file] == name
    }

    /// The state once `file` is the number of `name`.
    pub open spec fn with_name(self, file: FileNameRef, name: Seq<char>) -> Self {
        StateView { names: self.names.insert(file, name), ..self }
    }

    /// The state once it is recorded that `parent` imports `imported`.
    pub open spec fn with_import(self, parent: FileNameRef, imported: FileNameRef) -> Self {
        StateView {
            children: import_tree::with_link(self.children, parent, imported),
            importers: import_tree::with_link(self.importers, imported, parent),
            ..self
        }
    }

    /// `error` reports that `imported` already imports `parent`, through the files that
    /// `AcyclicTree::insert_cydet` finds.
    pub open spec fn is_cycle_report(
        self,
        error: RequestError,
        parent: FileNameRef,
        imported: FileNameRef,
    ) -> bool {
        error matches RequestError::ImportCycle { imported: at, chain } && {
            &&& at@ == self.rooted(imported)
            &&& exists|path: Seq<FileNameRef>|
                {
                    &&& #[trigger] import_tree::chain_between(self.importers, path, parent, imported)
                    &&& import_tree::follows_latest(self.importers, path, imported)
                    &&& text::texts(chain@) == self.all_rooted(path)
                }
        }
    }
}

impl<L, W> HurlinState<L, W> {
    /// The number of the file `name`, a new one if it is new. `None`, and nothing changes, if there
    /// is no new one to be had.
    pub fn get_or_intern(&mut self, name: &str) -> (file: Option<FileNameRef>)
        requires
            old(self).wf(),
        ensures
            final(self).wf(),
            match file {
                Some(file) => old(self)@.numbers(file, name@) && final(self)@
                    == old(self)@.with_name(file, name@),
                None => !old(self)@.names.contains_value(name@) && final(self)@ == old(self)@,
            },
    {
        let file = self.intern.get_or_intern(name);
        proof {
            match file {
                Some(file) => {
                    assert(self@ =~= old(self)@.with_name(file, name@));
                },
                None => {
                    assert(self@ =~= old(self)@);
                },
            }
            assert(self@.consistent());
        }
        file
    }

    /// What an import of `request` by `task` starts from. `canonical` is the canonical path of
    /// the file in the capped directory, if there is one.
    pub fn callstack_info(&mut self, task: TaskId, request: &str, canonical: Option<&str>) -> (info:
        Result<CallstackInfo, RequestError>)
        requires
            old(self).wf(),
        ensures
            final(self).wf(),
            match info {
                Ok(info) => {
                    &&& old(self)@.running.contains_key(task)
                    &&& canonical is Some
                    &&& info.call_stack@ == old(self)@.running[task]
                    &&& info.task_name == old(self)@.running[task].last()
                    &&& old(self)@.numbers(info.imports, canonical->0@)
                    &&& final(self)@ == old(self)@.with_name(info.imports, canonical->0@)
                },
                Err(error) => {
                    &&& final(self)@ == old(self)@
                    &&& if !old(self)@.running.contains_key(task) {
                        error == RequestError::NotRunning
                    } else if canonical is None {
                        error matches RequestError::NotCanonical(path) && path@ == paths::joined(
                            old(self)@.cap,
                            request@,
                        )
                    } else {
                        error == RequestError::InternerFull && !old(self)@.names.contains_value(
                            canonical->0@,
                        )
                    }
                },
            },
    {
        let call_stack = match self.running_tasks.get(&task) {
            Some(stack) => copy_files(stack),
            None => return Err(RequestError::NotRunning),
        };
        proof {
            assert(self@.running.contains_key(task));
        }
        let task_name = call_stack[call_stack.len() - 1];
        let name = match canonical {
            Some(name) => name,
            None => return Err(RequestError::NotCanonical(self.cap_dir.to_root(request))),
        };
        match self.get_or_intern(name) {
            Some(imports) => Ok(CallstackInfo { call_stack, task_name, imports }),
            None => Err(RequestError::InternerFull),
        }
    }

    /// The paths of files, as seen from outside the capped directory.
    fn root_paths(&self, files: &Vec<FileNameRef>) -> (list: Vec<String>)
        requires
            state::all_known(self@.names, files@),
        ensures
            text::texts(list@) == self@.all_rooted(files@),
    {
        let mut list: Vec<String> = Vec::new();
        let mut i: usize = 0;
        while i < files.len()
            invariant
                i <= files.len(),
                state::all_known(self@.names, files@),
                text::texts(list@) =~= self@.all_rooted(files@).take(i as int),
            decreases files.len() - i,
        {
            assert(self@.names.contains_key(files@[i as int]));
            list.push(self.root_path(files[i]));
            assert(self@.all_rooted(files@)[i as int] == self@.rooted(files@[i as int]));
            i += 1;
        }
        list
    }

    /// The path of a file, as seen from outside the capped directory.
    pub fn root_path(&self, file: FileNameRef) -> (path: String)
        requires
            self@.names.contains_key(file),
        ensures
            path@ == self@.rooted(file),
            path@ == paths::joined(self@.cap, self@.names[file]),
    {
        self.cap_dir.to_root(self.intern.resolve(file).as_str())
    }

    /// Records that `parent` imports `imported`, unless that would close a cycle.
    pub fn detect_import_cycle(&mut self, parent: FileNameRef, imported: FileNameRef) -> (result:
        Result<(), RequestError>)
        requires
            old(self).wf(),
            old(self)@.names.contains_key(parent),
            old(self)@.names.contains_key(imported),
        ensures
            final(self).wf(),
            result is Err <==> import_tree::reaches(old(self)@.importers, parent, imported),
            match result {
                Ok(()) => final(self)@ == old(self)@.with_import(parent, imported),
                Err(error) => final(self)@ == old(self)@ && old(self)@.is_cycle_report(
                    error,
                    parent,
                    imported,
                ),
            },
    {
        match self.import_tree.insert_cydet(parent, imported) {
            Ok(()) => {
                proof {
                    assert(self@ =~= old(self)@.with_import(parent, imported));
                    assert forall|a: FileNameRef, b: FileNameRef| #[trigger]
                        import_tree::linked(
                            self@.importers,
                            a,
                            b,
                        ) implies self@.names.contains_key(b) by {
                        let list = import_tree::listed(self@.importers, a);
                        let k = choose|k: int| 0 <= k < list.len() && list[k] == b;
                        if b != parent {
                            assert(import_tree::listed(old(self)@.importers, a)[k] == b);
                            assert(import_tree::linked(old(self)@.importers, a, b));
                        }
                    }
                    assert forall|task: TaskId| #[trigger]
                        self@.running.contains_key(task) implies state::nested(
                        self@.importers,
                        self@.running[task],
                    ) by {
                        state::lemma_nested_grows(
                            old(self)@.importers,
                            imported,
                            parent,
                            self@.running[task],
                        );
                    }
                    assert(self@.consistent());
                }
                Ok(())
            },
            Err(cycle) => {
                proof {
                    assert forall|i: int| 0 <= i < cycle@.len() implies self@.names.contains_key(
                        #[trigger] cycle@[i],
                    ) by {
                        if i > 0 {
                            assert(import_tree::linked(
                                self@.importers,
                                cycle@[i - 1],
                                cycle@[i],
                            ));
                        }
                    }
                }
                let chain = self.root_paths(&cycle);
                let imported_path = self.root_path(imported);
                Err(RequestError::ImportCycle { imported: imported_path, chain })
            },
        }
    }

    /// What an import of `request` by `task` starts from, once it is recorded. `canonical` is the
    /// canonical path of the file in the capped directory, if there is one.
    pub fn imports(
        &mut self,
        task: TaskId,
        request: &str,
        canonical: Option<&str>,
    ) -> (info: Result<CallstackInfo, RequestError>)
        requires
            old(self).wf(),
        ensures
            final(self).wf(),
            info matches Err(error) ==> is_import_refusal(error.answer()),
            match info {
                Ok(info) => {
                    &&& old(self)@.running.contains_key(task)
                    &&& canonical is Some
                    &&& info.call_stack@ == old(self)@.running[task]
                    &&& info.task_name == old(self)@.running[task].last()
                    &&& old(self)@.numbers(info.imports, canonical->0@)
                    &&& !import_tree::reaches(old(self)@.importers, info.task_name, info.imports)
                    &&& final(self)@ == old(self)@.with_name(
                        info.imports,
                        canonical->0@,
                    ).with_import(info.task_name, info.imports)
                    &&& state::nested(final(self)@.importers, info.call_stack@.push(info.imports))
                },
                Err(error) => if !old(self)@.running.contains_key(task) {
                    error == RequestError::NotRunning && final(self)@ == old(self)@
                } else if canonical is None {
                    &&& error matches RequestError::NotCanonical(path) && path@ == paths::joined(
                        old(self)@.cap,
                        request@,
                    )
                    &&& final(self)@ == old(self)@
                } else {
                    let parent = old(self)@.running[task].last();
                    ||| {
                        &&& error == RequestError::InternerFull
                        &&& !old(self)@.names.contains_value(canonical->0@)
                        &&& final(self)@ == old(self)@
                    }
                    ||| exists|imported: FileNameRef|
                        {
                            &&& #[trigger] old(self)@.numbers(imported, canonical->0@)
                            &&& import_tree::reaches(old(self)@.importers, parent, imported)
                            &&& final(self)@ == old(self)@.with_name(imported, canonical->0@)
                            &&& final(self)@.is_cycle_report(error, parent, imported)
                        }
                },
            },
    {
        let info = match self.callstack_info(task, request, canonical) {
            Ok(info) => info,
            Err(error) => return Err(error),
        };
        proof {
            assert(old(self)@.running.contains_key(task));
            assert(self@.running.contains_key(task));
            assert(state::all_known(self@.names, self@.running[task]));
        }
        let ghost named = self@;
        match self.detect_import_cycle(info.task_name, info.imports) {
            Ok(()) => {
                proof {
                    assert(state::nested(named.importers, named.running[task]));
                    state::lemma_nested_push(named.importers, info.call_stack@, info.imports);
                }
                Ok(info)
            },
            Err(error) => {
                assert(old(self)@.numbers(info.imports, canonical->0@));
                Err(error)
            },
        }
    }

    /// The answer to a request for the file `request`: its contents, if it could be read.
    pub fn readfile(&self, request: &str, contents: Option<Vec<u8>>) -> (answer: Result<
        Response,
        RequestError,
    >)
        ensures
            match contents {
                Some(contents) => answer matches Ok(response) && response@ == (
                    None::<Seq<u8>>,
                    contents@,
                ),
                None => answer matches Err(RequestError::NotCanonical(path)) && path@
                    == paths::joined(self@.cap, request@),
            },
    {
        match contents {
            Some(contents) => Ok(Response::file(contents)),
            None => Err(RequestError::NotCanonical(self.cap_dir.to_root(request))),
        }
    }
}

impl<L, W> StateView<L, W> {
    /// What the cache holds of `file`.
    pub open spec fn slot(self, file: FileNameRef) -> Option<SlotView<L>> {
        if self.cache.contains_key(file) {
            Some(self.cache[file])
        } else {
            None
        }
    }

    /// `file` is being run into the cache.
    pub open spec fn is_running(self, file: FileNameRef) -> bool {
        self.slot(file) matches Some(SlotView::Running(_))
    }

    /// What waits for `file` to be run into the cache.
    pub open spec fn queue_of(self, file: FileNameRef) -> Seq<L> {
        match self.slot(file) {
            Some(SlotView::Running(queue)) => queue,
            _ => Seq::empty(),
        }
    }

    /// The state once an import of `file` has been decided on: a file that is not in the cache is
    /// run into it, and an import of a file that is being run joins the queue.
    pub open spec fn with_claim(self, file: FileNameRef, args: HurlinImportArgs, waker: L) -> Self {
        match (args, self.slot(file)) {
            (HurlinImportArgs::Normal, None) => StateView {
                cache: self.cache.insert(file, SlotView::Running(Seq::empty())),
                ..self
            },
            (HurlinImportArgs::Normal, Some(SlotView::Running(queue))) => StateView {
                cache: self.cache.insert(file, SlotView::Running(queue.push(waker))),
                ..self
            },
            _ => self,
        }
    }

    /// The state once it is given up to run `file` into the cache.
    pub open spec fn without_claim(self, file: FileNameRef) -> Self {
        if self.is_running(file) {
            StateView { cache: self.cache.remove(file), ..self }
        } else {
            self
        }
    }
}

impl<L, W> HurlinState<L, W> {
    /// Decides on an import of `file`. An import that must wait is to be decided on again once
    /// `waker` has woken it.
    pub fn cache_entry_for(
        &mut self,
        file: FileNameRef,
        args: HurlinImportArgs,
        waker: L,
    ) -> (decided: ImportDecision)
        requires
            old(self).wf(),
        ensures
            final(self).wf(),
            decided@ == imports::decision(args, old(self)@.slot(file)),
            final(self)@ == old(self)@.with_claim(file, args, waker),
    {
        if let HurlinImportArgs::Nocache = args {
            return ImportDecision::Run;
        }
        let (decided, slot) = match self.import_cache.remove(&file) {
            None => (ImportDecision::Run, CacheSlot::Running(Vec::new())),
            Some(CacheSlot::Running(queue)) => {
                let mut queue = queue;
                queue.push(waker);
                (ImportDecision::Wait, CacheSlot::Running(queue))
            },
            Some(CacheSlot::Done(entry)) => (
                imports::answer_cached(&entry),
                CacheSlot::Done(entry),
            ),
        };
        let ghost held = slot@;
        self.import_cache.insert(file, slot);
        proof {
            assert(self@.cache =~= old(self)@.cache.insert(file, held));
            let after = old(self)@.with_claim(file, args, waker);
            if old(self)@.slot(file) matches Some(SlotView::Done(_)) {
                assert(self@.cache =~= old(self)@.cache);
            }
            if old(self)@.slot(file) is None {
                assert(held == SlotView::Running(Seq::<L>::empty()));
            }
            assert(self@ =~= after);
            assert(self@.consistent());
        }
        decided
    }

    /// Gives up to run `file` into the cache. The imports that waited for it are to be woken; one
    /// of them will run it.
    pub fn give_up(&mut self, file: FileNameRef) -> (woken: Vec<L>)
        requires
            old(self).wf(),
        ensures
            final(self).wf(),
            final(self)@ == old(self)@.without_claim(file),
            woken@ == old(self)@.queue_of(file),
    {
        let mut woken: Vec<L> = Vec::new();
        match self.import_cache.remove(&file) {
            Some(CacheSlot::Running(queue)) => {
                woken = queue;
            },
            Some(CacheSlot::Done(entry)) => {
                self.import_cache.insert(file, CacheSlot::Done(entry));
            },
            None => {},
        }
        proof {
            if old(self)@.is_running(file) {
                assert(self@.cache =~= old(self)@.cache.remove(file));
            } else {
                assert(self@.cache =~= old(self)@.cache);
                assert(woken@ =~= Seq::<L>::empty());
            }
            assert(self@ =~= old(self)@.without_claim(file));
            assert(self@.consistent());
        }
        woken
    }
}

} // verus!
