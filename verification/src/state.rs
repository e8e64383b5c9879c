//! The state of a session.

use std::collections::HashMap;

use vstd::prelude::*;

use crate::failure::StatusCode;
use crate::import_tree;
use crate::import_tree::AcyclicTree;
use crate::imports::{CacheSlot, SlotView};
use crate::intern::{FileNameRef, Interner};
use crate::keys::{AsyncKey, HurlinKey, TaskId};
use crate::paths::PathDir;
use crate::replies;
use crate::replies::{Outcome, TypedBody};
use crate::table::Table;
use crate::text;

pub mod exports;
pub mod imports;
pub mod rpc;
pub mod tasks;
pub mod waits;

verus! {

/// What the state of a session amounts to.
#[verifier::ext_equal]
#[verifier::reject_recursive_types(L)]
#[verifier::reject_recursive_types(W)]
pub struct StateView<L, W> {
    /// The key that requests must carry.
    pub key: HurlinKey,
    /// The port that the session listens on.
    pub port: u16,
    /// The arguments that are forwarded to hurl.
    pub forwarded: Seq<Seq<char>>,
    /// How often hurl was called.
    pub calls: u64,
    /// The directory that imports are capped to.
    pub cap: Seq<char>,
    /// The files that are known.
    pub names: Map<FileNameRef, Seq<char>>,
    /// The cache.
    pub cache: Map<FileNameRef, SlotView<L>>,
    /// What each file imports.
    pub children: Map<FileNameRef, Seq<FileNameRef>>,
    /// By whom each file is imported.
    pub importers: Map<FileNameRef, Seq<FileNameRef>>,
    /// The running tasks: for each the files that led to it, its own file last.
    pub running: Map<TaskId, Seq<FileNameRef>>,
    /// What the running tasks have exported.
    pub exported: Map<TaskId, (Seq<u8>, Option<Seq<u8>>)>,
    /// What can be awaited, under which key and by which task; and what it came to, once it has
    /// ended.
    pub waits: Map<(AsyncKey, TaskId), Option<Result<(Option<Seq<u8>>, Seq<u8>), StatusCode>>>,
    /// What is being awaited, and what wakes whoever awaits it.
    pub awaited: Map<(AsyncKey, TaskId), W>,
}

/// All of `files` are known.
pub open spec fn all_known(
    names: Map<FileNameRef, Seq<char>>,
    files: Seq<FileNameRef>,
) -> bool {
    forall|i: int| 0 <= i < files.len() ==> names.contains_key(#[trigger] files[i])
}

/// Each of `stack`, the files that led to a task, imports the next.
pub open spec fn nested(
    importers: Map<FileNameRef, Seq<FileNameRef>>,
    stack: Seq<FileNameRef>,
) -> bool {
    forall|i: int, j: int|
        0 <= i && j == i + 1 && j < stack.len() ==> import_tree::linked(
            importers,
            #[trigger] stack[j],
            #[trigger] stack[i],
        )
}

/// One more import leaves the files that led to a task nested.
pub proof fn lemma_nested_grows(
    importers: Map<FileNameRef, Seq<FileNameRef>>,
    imported: FileNameRef,
    parent: FileNameRef,
    stack: Seq<FileNameRef>,
)
    requires
        nested(importers, stack),
    ensures
        nested(import_tree::with_link(importers, imported, parent), stack),
{
    let after = import_tree::with_link(importers, imported, parent);
    assert forall|i: int, j: int|
        0 <= i && j == i + 1 && j < stack.len() implies import_tree::linked(
        after,
        #[trigger] stack[j],
        #[trigger] stack[i],
    ) by {
        assert(import_tree::linked(importers, stack[j], stack[i]));
        let list = import_tree::listed(importers, stack[j]);
        let k = choose|k: int| 0 <= k < list.len() && list[k] == stack[i];
        assert(import_tree::listed(after, stack[j])[k] == stack[i]);
    }
}

/// The stack of an imported file is that of the importing task, one import longer.
pub proof fn lemma_nested_push(
    importers: Map<FileNameRef, Seq<FileNameRef>>,
    stack: Seq<FileNameRef>,
    imported: FileNameRef,
)
    requires
        stack.len() > 0,
        nested(importers, stack),
    ensures
        nested(
            import_tree::with_link(importers, imported, stack.last()),
            stack.push(imported),
        ),
{
    let after = import_tree::with_link(importers, imported, stack.last());
    let longer = stack.push(imported);
    lemma_nested_grows(importers, imported, stack.last(), stack);
    assert forall|i: int, j: int|
        0 <= i && j == i + 1 && j < longer.len() implies import_tree::linked(
        after,
        #[trigger] longer[j],
        #[trigger] longer[i],
    ) by {
        if j < stack.len() {
            assert(import_tree::linked(after, stack[j], stack[i]));
        } else {
            let list = import_tree::listed(importers, imported);
            assert(import_tree::listed(after, imported)[list.len() as int] == stack[i]);
        }
    }
}

impl<L, W> StateView<L, W> {
    /// Every running task was led to by known files, its own at least, each of which imports the
    /// next; every importer is known; a file that could not be run is a failed dependency; and
    /// what is being awaited cannot be awaited again.
    pub open spec fn consistent(self) -> bool {
        &&& forall|task: TaskId| #[trigger]
            self.running.contains_key(task) ==> {
                &&& self.running[task].len() > 0
                &&& all_known(self.names, self.running[task])
                &&& nested(self.importers, self.running[task])
            }
        &&& forall|a: FileNameRef, b: FileNameRef| #[trigger]
            import_tree::linked(self.importers, a, b) ==> self.names.contains_key(b)
        &&& forall|file: FileNameRef| #[trigger]
            self.cache.contains_key(file) ==> (self.cache[file] matches SlotView::Done(Err(status))
                ==> status == StatusCode::FailedDependency)
        &&& forall|id: (AsyncKey, TaskId)| #[trigger]
            self.waits.contains_key(id) ==> !self.awaited.contains_key(id)
    }
}

/// The state of a session. `L` wakes an import that waits for a file to be run, and `W` whoever
/// awaits what a task comes to.
#[verifier::reject_recursive_types(L)]
#[verifier::reject_recursive_types(W)]
pub struct HurlinState<L, W> {
    key: HurlinKey,
    port: u16,
    hurl_args: Vec<String>,
    hurl_calls: u64,
    intern: Interner,
    cap_dir: PathDir,
    import_cache: HashMap<FileNameRef, CacheSlot<L>>,
    import_tree: AcyclicTree<FileNameRef>,
    running_tasks: Table<TaskId, Vec<FileNameRef>>,
    exports: Table<TaskId, TypedBody>,
    async_waits: Table<(AsyncKey, TaskId), Option<Outcome>>,
    awaited: Table<(AsyncKey, TaskId), W>,
}

impl<L, W> View for HurlinState<L, W> {
    type V = StateView<L, W>;

    closed spec fn view(&self) -> StateView<L, W> {
        StateView {
            key: self.key,
            port: self.port,
            forwarded: text::texts(self.hurl_args@),
            calls: self.hurl_calls,
            cap: self.cap_dir.root(),
            names: self.intern@,
            cache: self.import_cache@.map_values(|slot: CacheSlot<L>| slot@),
            children: self.import_tree.children(),
            importers: self.import_tree.importers(),
            running: self.running_tasks@.map_values(|stack: Vec<FileNameRef>| stack@),
            exported: self.exports@.map_values(|export: TypedBody| export@),
            waits: self.async_waits@.map_values(
                |ended: Option<Outcome>| replies::ended_view(ended),
            ),
            awaited: self.awaited@,
        }
    }
}

impl<L, W> HurlinState<L, W> {
    /// The parts are well-formed.
    pub closed spec fn parts_wf(&self) -> bool {
        &&& self.intern.wf()
        &&& self.import_tree.wf()
        &&& self.running_tasks.wf()
        &&& self.exports.wf()
        &&& self.async_waits.wf()
        &&& self.awaited.wf()
    }

    /// The state is one that a session can be in.
    pub open spec fn wf(&self) -> bool {
        self.parts_wf() && self@.consistent()
    }

    /// A session in which nothing has happened yet.
    pub fn new(key: HurlinKey, port: u16, hurl_args: Vec<String>, cap_dir: PathDir) -> (state: Self)
        ensures
            state.wf(),
            state@ == (StateView::<L, W> {
                key,
                port,
                forwarded: text::texts(hurl_args@),
                calls: 0,
                cap: cap_dir.root(),
                names: Map::empty(),
                cache: Map::empty(),
                children: Map::empty(),
                importers: Map::empty(),
                running: Map::empty(),
                exported: Map::empty(),
                waits: Map::empty(),
                awaited: Map::empty(),
            }),
    {
        let state = HurlinState {
            key,
            port,
            hurl_args,
            hurl_calls: 0,
            intern: Interner::new(),
            cap_dir,
            import_cache: HashMap::new(),
            import_tree: AcyclicTree::new(),
            running_tasks: Table::new(),
            exports: Table::new(),
            async_waits: Table::new(),
            awaited: Table::new(),
        };
        proof {
            assert(state@.cache =~= Map::empty());
            assert(state@.running =~= Map::empty());
            assert(state@.exported =~= Map::empty());
            assert(state@.waits =~= Map::empty());
        }
        state
    }

    /// The imports of a session close no cycle.
    pub proof fn lemma_imports_acyclic(&self)
        requires
            self.wf(),
        ensures
            import_tree::acyclic(self@.importers),
    {
        self.import_tree.law_no_cycles();
    }

    /// The files of a session can be put in an order in which each comes before its importers.
    pub proof fn lemma_files_are_in_order(&self) -> (rank: spec_fn(FileNameRef) -> int)
        requires
            self.wf(),
        ensures
            import_tree::in_order(self@.importers, rank),
    {
        self.import_tree.law_files_are_in_order()
    }

    /// What each file imports, and by whom each file is imported, are the same links, recorded as
    /// often.
    pub proof fn lemma_directions_agree(&self, file: FileNameRef, imported: FileNameRef)
        requires
            self.wf(),
        ensures
            import_tree::listed(self@.children, file).to_multiset().count(imported)
                == import_tree::listed(self@.importers, imported).to_multiset().count(file),
            import_tree::linked(self@.children, file, imported) <==> import_tree::linked(
                self@.importers,
                imported,
                file,
            ),
    {
        self.import_tree.law_directions_agree(file, imported);
        import_tree::listed(self@.children, file).to_multiset_ensures();
        import_tree::listed(self@.importers, imported).to_multiset_ensures();
    }

    /// No name is known by two numbers.
    pub proof fn lemma_names_differ(&self, a: FileNameRef, b: FileNameRef)
        requires
            self.wf(),
            self@.names.contains_key(a),
            self@.names.contains_key(b),
            self@.names[a] == self@.names[b],
        ensures
            a == b,
    {
    }

    /// The key that requests must carry.
    pub fn key(&self) -> (key: HurlinKey)
        ensures
            key == self@.key,
    {
        self.key
    }

    /// The port that the session listens on.
    pub fn port(&self) -> (port: u16)
        ensures
            port == self@.port,
    {
        self.port
    }

    /// How often hurl was called.
    pub fn hurl_calls(&self) -> (calls: u64)
        ensures
            calls == self@.calls,
    {
        self.hurl_calls
    }
}

} // verus!
