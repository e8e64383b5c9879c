//! The parameters of an import, and how the cache decides on it.

use vstd::prelude::*;

use crate::failure::{RequestError, StatusCode};
use crate::replies;
use crate::replies::{CacheEntry, Response};
use crate::text;

verus! {

broadcast use text::lemma_texts_push;

/// How an import treats the cache.
#[derive(Copy, Clone, Debug, PartialEq, Eq, Structural)]
pub enum HurlinImportArgs {
    /// Read from the cache; run the file if it is not there, and set the cache after.
    Normal,
    /// Always run the file, and leave the cache alone.
    Nocache,
}

impl Default for HurlinImportArgs {
    fn default() -> (args: Self)
        ensures
            args == HurlinImportArgs::Normal,
    {
        HurlinImportArgs::Normal
    }
}

/// The query of an import: the one parameter that imports have, and any others.
pub struct HurlinImportQuery {
    pub nocache: Option<String>,
    pub rest: Vec<(String, String)>,
}

/// The names of a list of parameters.
pub open spec fn names(list: Seq<(String, String)>) -> Seq<Seq<char>> {
    list.map_values(|parameter: (String, String)| parameter.0@)
}

impl HurlinImportArgs {
    /// Reads the parameters of an import; `None` stands for a query that could not be read.
    pub fn from_query(query: Option<HurlinImportQuery>) -> (args: Result<Self, RequestError>)
        ensures
            match query {
                None => args == Err::<Self, RequestError>(RequestError::BadImportQuery),
                Some(query) => if query.rest@.len() > 0 {
                    args matches Err(RequestError::ExtraImportParameters(extra)) && text::texts(
                        extra@,
                    ) == names(query.rest@)
                } else {
                    args == Ok::<Self, RequestError>(
                        if query.nocache is Some {
                            HurlinImportArgs::Nocache
                        } else {
                            HurlinImportArgs::Normal
                        },
                    )
                },
            },
    {
        let query = match query {
            Some(query) => query,
            None => return Err(RequestError::BadImportQuery),
        };
        if query.rest.len() > 0 {
            let mut extra: Vec<String> = Vec::new();
            let mut i: usize = 0;
            while i < query.rest.len()
                invariant
                    i <= query.rest.len(),
                    text::texts(extra@) =~= names(query.rest@).take(i as int),
                decreases query.rest.len() - i,
            {
                extra.push(query.rest[i].0.clone());
                assert(names(query.rest@)[i as int] == query.rest@[i as int].0@);
                i += 1;
            }
            return Err(RequestError::ExtraImportParameters(extra));
        }
        Ok(
            if query.nocache.is_some() {
                HurlinImportArgs::Nocache
            } else {
                HurlinImportArgs::Normal
            },
        )
    }
}

/// What the cache holds of a file.
pub enum CacheSlot<L> {
    /// The file is being run, and these wait for it.
    Running(Vec<L>),
    /// The file was run, and this is what it came to.
    Done(CacheEntry),
}

/// What the cache holds of a file, without its representation.
pub enum SlotView<L> {
    Running(Seq<L>),
    Done(Result<Option<(Seq<u8>, Option<Seq<u8>>)>, StatusCode>),
}

impl<L> View for CacheSlot<L> {
    type V = SlotView<L>;

    open spec fn view(&self) -> SlotView<L> {
        match self {
            CacheSlot::Running(queue) => SlotView::Running(queue@),
            CacheSlot::Done(entry) => SlotView::Done(replies::entry_view(*entry)),
        }
    }
}

/// What becomes of an import.
pub enum ImportDecision {
    /// Answer at once.
    Reply(Response),
    /// Refuse at once.
    Refuse(StatusCode),
    /// Wait for the task that runs the file.
    Wait,
    /// Run the file.
    Run,
}

/// What becomes of an import, without the answer's representation.
pub enum DecisionView {
    Reply((Option<Seq<u8>>, Seq<u8>)),
    Refuse(StatusCode),
    Wait,
    Run,
}

impl View for ImportDecision {
    type V = DecisionView;

    open spec fn view(&self) -> DecisionView {
        match self {
            ImportDecision::Reply(response) => DecisionView::Reply(response@),
            ImportDecision::Refuse(status) => DecisionView::Refuse(*status),
            ImportDecision::Wait => DecisionView::Wait,
            ImportDecision::Run => DecisionView::Run,
        }
    }
}

/// How an import is answered from the cache.
pub open spec fn cached(
    entry: Result<Option<(Seq<u8>, Option<Seq<u8>>)>, StatusCode>,
) -> DecisionView {
    match entry {
        Ok(export) => DecisionView::Reply(replies::mirrored(export)),
        Err(status) => DecisionView::Refuse(status),
    }
}

/// The decision on an import of a file of which the cache holds `slot`.
pub open spec fn decision<L>(args: HurlinImportArgs, slot: Option<SlotView<L>>) -> DecisionView {
    match (args, slot) {
        (HurlinImportArgs::Nocache, _) | (HurlinImportArgs::Normal, None) => DecisionView::Run,
        (HurlinImportArgs::Normal, Some(SlotView::Running(_))) => DecisionView::Wait,
        (HurlinImportArgs::Normal, Some(SlotView::Done(entry))) => cached(entry),
    }
}

/// Answers an import from the cache.
pub fn answer_cached(entry: &CacheEntry) -> (decided: ImportDecision)
    ensures
        decided@ == cached(replies::entry_view(*entry)),
{
    match entry {
        // ran, and exported nothing
        Ok(None) => ImportDecision::Reply(Response::mirror(None)),
        // ran, and exported something
        Ok(Some(export)) => ImportDecision::Reply(Response::mirror(Some(export.copy()))),
        // failed
        Err(status) => ImportDecision::Refuse(*status),
    }
}

} // verus!
