//! Paths below the directory that imports are capped to.

use camino::Utf8Path;
use vstd::prelude::*;

use crate::text;

verus! {

/// `path` adjoined to `base`.
pub uninterp spec fn joined(base: Seq<char>, path: Seq<char>) -> Seq<char>;

/// `path` without its final component.
pub uninterp spec fn parent_of(path: Seq<char>) -> Option<Seq<char>>;

/// The final component of `path`.
pub uninterp spec fn file_name_of(path: Seq<char>) -> Option<Seq<char>>;

/// What is left of `path` below `base`.
pub uninterp spec fn stripped(path: Seq<char>, base: Seq<char>) -> Option<Seq<char>>;

/// `list` is `path`, its parent, the parent of that, and so on as far as there are parents.
pub open spec fn is_ancestry(list: Seq<Seq<char>>, path: Seq<char>) -> bool {
    &&& list.len() > 0
    &&& list[0] == path
    &&& forall|i: int, j: int|
        0 <= i && j == i + 1 && j < list.len() ==> parent_of(#[trigger] list[i]) == Some(
            #[trigger] list[j],
        )
    &&& parent_of(list.last()) is None
}

/// A path has one list of ancestors: itself first, then each the parent of the one before, down to
/// one without a parent.
pub proof fn law_one_ancestry(path: Seq<char>, list: Seq<Seq<char>>, other: Seq<Seq<char>>, i: int)
    requires
        is_ancestry(list, path),
        is_ancestry(other, path),
        0 <= i < list.len(),
    ensures
        i < other.len(),
        other[i] == list[i],
        i == 0 ==> list[i] == path,
        i > 0 ==> parent_of(list[i - 1]) == Some(list[i]),
        parent_of(list[i]) is None <==> i == list.len() - 1,
    decreases i,
{
    if i > 0 {
        law_one_ancestry(path, list, other, i - 1);
        assert(parent_of(list[i - 1]) == Some(list[i]));
        if i == other.len() {
            assert(parent_of(other.last()) is None);
        }
        assert(parent_of(other[i - 1]) == Some(other[i]));
    }
    if i < list.len() - 1 {
        assert(parent_of(list[i]) == Some(list[i + 1]));
    }
}

/// `list`, a path and its ancestors, is written as joining writes paths: each is what joining its
/// name to its parent gives.
pub open spec fn is_tidy(list: Seq<Seq<char>>) -> bool {
    forall|i: int, j: int|
        #![trigger list[i], list[j]]
        0 <= i && j == i + 1 && j < list.len() ==> file_name_of(list[i]) is Some && list[i]
            == joined(list[j], file_name_of(list[i])->0)
}

/// `path` is written as joining writes paths, and lies below `base`, which is one of its ancestors.
/// Canonical paths are written so.
pub open spec fn lies_below(path: Seq<char>, base: Seq<char>) -> bool {
    exists|list: Seq<Seq<char>>, k: int|
        #![trigger is_ancestry(list, path), list[k]]
        is_ancestry(list, path) && is_tidy(list) && 0 < k < list.len() && list[k] == base
}

/// The names of `base` are the first of those of `path`, one for one.
pub open spec fn begins_with(path: Seq<char>, base: Seq<char>) -> bool {
    forall|list: Seq<Seq<char>>, start: Seq<Seq<char>>, i: int|
        #![trigger is_ancestry(list, path), is_ancestry(start, base), start[i]]
        is_ancestry(list, path) && is_ancestry(start, base) ==> start.len() <= list.len() && (0
            <= i < start.len() ==> file_name_of(start[i]) == file_name_of(
            list[list.len() - start.len() + i],
        ))
}

/// `path` and `base` are both written as joining writes paths, from the same top. Canonical paths on
/// one volume are.
pub open spec fn are_canonical(path: Seq<char>, base: Seq<char>) -> bool {
    exists|list: Seq<Seq<char>>, start: Seq<Seq<char>>|
        {
            &&& #[trigger] is_ancestry(list, path)
            &&& #[trigger] is_ancestry(start, base)
            &&& is_tidy(list)
            &&& is_tidy(start)
            &&& list.last() == start.last()
        }
}

/// `path` starts from nowhere: the last of its ancestors is the empty path.
pub open spec fn is_relative(path: Seq<char>) -> bool {
    forall|list: Seq<Seq<char>>| #[trigger]
        is_ancestry(list, path) ==> list.last() == Seq::<char>::empty()
}

/// `path` has the form in which Windows takes names literally.
pub open spec fn is_verbatim(path: Seq<char>) -> bool {
    "\\\\?\\"@.is_prefix_of(path)
}

/// The names of `path` are those of `base`, followed by those of `rest`.
pub open spec fn names_follow(path: Seq<char>, base: Seq<char>, rest: Seq<char>) -> bool {
    forall|list: Seq<Seq<char>>, start: Seq<Seq<char>>, tail: Seq<Seq<char>>, i: int|
        #![trigger
            is_ancestry(list, path), is_ancestry(start, base), is_ancestry(tail, rest), tail[i]]
        is_ancestry(list, path) && is_ancestry(start, base) && is_ancestry(tail, rest) ==> {
            &&& list.len() + 1 == start.len() + tail.len()
            &&& 0 <= i < tail.len() - 1 ==> file_name_of(tail[i]) == file_name_of(list[i])
        }
}

/// `a` and `b` have the same names, one for one.
pub open spec fn same_names(a: Seq<char>, b: Seq<char>) -> bool {
    forall|list: Seq<Seq<char>>, other: Seq<Seq<char>>, i: int|
        #![trigger is_ancestry(list, a), is_ancestry(other, b), list[i]]
        is_ancestry(list, a) && is_ancestry(other, b) ==> list.len() == other.len() && (0 <= i
            < list.len() ==> file_name_of(list[i]) == file_name_of(other[i]))
}

/// Of two canonical paths from the same top, one that begins with the names of the other is it, or
/// lies below it.
proof fn lemma_canonical_begins(path: Seq<char>, base: Seq<char>)
    requires
        are_canonical(path, base),
        begins_with(path, base),
    ensures
        path == base || lies_below(path, base),
{
    let (list, start) = choose|list: Seq<Seq<char>>, start: Seq<Seq<char>>|
        {
            &&& #[trigger] is_ancestry(list, path)
            &&& #[trigger] is_ancestry(start, base)
            &&& is_tidy(list)
            &&& is_tidy(start)
            &&& list.last() == start.last()
        };
    let shift = list.len() - start.len();
    lemma_same_from_the_top(path, base, list, start, 0);
    assert(list[shift] == base);
    assert(shift > 0 ==> lies_below(path, base));
}

/// Two lists of ancestors that are written as joining writes paths, with the same names and the same
/// top, are the same from there down.
proof fn lemma_same_from_the_top(
    path: Seq<char>,
    base: Seq<char>,
    list: Seq<Seq<char>>,
    start: Seq<Seq<char>>,
    i: int,
)
    requires
        is_ancestry(list, path),
        is_ancestry(start, base),
        is_tidy(list),
        is_tidy(start),
        list.last() == start.last(),
        begins_with(path, base),
        0 <= i < start.len(),
    ensures
        start.len() <= list.len(),
        list[list.len() - start.len() + i] == start[i],
    decreases start.len() - i,
{
    let shift = list.len() - start.len();
    if i + 1 < start.len() {
        lemma_same_from_the_top(path, base, list, start, i + 1);
        assert(file_name_of(start[i]) == file_name_of(list[shift + i]));
        assert(start[i] == joined(start[i + 1], file_name_of(start[i])->0));
        assert(list[shift + i] == joined(list[shift + i + 1], file_name_of(list[shift + i])->0));
    }
}

/// `camino::Utf8Path::join`. The result is named, not spelled out: the separator, and which paths
/// are absolute and so replace `base`, are those of the target platform.
#[verifier::external_body]
fn join(base: &str, path: &str) -> (result: String)
    ensures
        result@ == joined(base@, path@),
{
    Utf8Path::new(base).join(path).into_string()
}

/// `camino::Utf8Path::parent`. The result is named: what a component is depends on the target
/// platform.
#[verifier::external_body]
pub(crate) fn parent(path: &str) -> (result: Option<String>)
    ensures
        text::optional(result) == parent_of(path@),
{
    Utf8Path::new(path).parent().map(|parent| parent.to_string())
}

/// `camino::Utf8Path::file_name`. The result is named: what a component is depends on the target
/// platform.
#[verifier::external_body]
pub(crate) fn file_name(path: &str) -> (result: Option<String>)
    ensures
        text::optional(result) == file_name_of(path@),
{
    Utf8Path::new(path).file_name().map(|name| name.to_string())
}

/// `camino::Utf8Path::strip_prefix`, `None` in place of its error. The result is named: what a
/// component is depends on the target platform.
///
/// There is a result only if the components of `base` are the first of `path`. Its own are those
/// that follow, and joined to `base` it gives the components of `path` back, where it is relative;
/// Windows has results that are not, and paths whose names it takes literally. Nothing is left of
/// `base` itself. Below `base`, where `path` is written as joining writes paths, there always is a
/// result, it is relative, and joined to `base` it gives the very text of `path`; elsewhere
/// separators may differ.
#[verifier::external_body]
fn strip_prefix(path: &str, base: &str) -> (result: Option<String>)
    ensures
        text::optional(result) == stripped(path@, base@),
        result is Some ==> begins_with(path@, base@),
        result is Some && is_relative(result->0@) && !is_verbatim(path@) ==> names_follow(
            path@,
            base@,
            result->0@,
        ) && same_names(joined(base@, result->0@), path@),
        path@ == base@ ==> result is Some && result->0@ == Seq::<char>::empty() && is_relative(
            result->0@,
        ),
        lies_below(path@, base@) ==> {
            &&& result is Some
            &&& is_relative(result->0@)
            &&& names_follow(path@, base@, result->0@)
            &&& joined(base@, result->0@) == path@
        },
{
    Utf8Path::new(path).strip_prefix(base).ok().map(|rest| rest.to_string())
}

/// `camino::Utf8Path::ancestors`, collected: the path, its parent as `camino::Utf8Path::parent`
/// gives it, and so on until there is none.
#[verifier::external_body]
fn ancestors(path: &str) -> (result: Vec<String>)
    ensures
        is_ancestry(text::texts(result@), path@),
{
    Utf8Path::new(path).ancestors().map(|dir| dir.to_string()).collect()
}

/// Why no path could be made out.
#[derive(Copy, Clone, Debug, PartialEq, Eq, Structural)]
pub enum PathError {
    /// The path lies outside the capped directory.
    OutsideCap,
    /// The root file has no directory.
    Parentless,
}

impl PathError {
    /// What to tell the user.
    pub open spec fn told(self) -> Seq<char> {
        match self {
            PathError::OutsideCap => "path does not exist within capped directory"@,
            PathError::Parentless => "root hurlin file passed was `/` or otherwise parentless"@,
        }
    }

    /// What to tell the user.
    pub fn message(self) -> (message: &'static str)
        ensures
            message@ == self.told(),
    {
        match self {
            PathError::OutsideCap => "path does not exist within capped directory",
            PathError::Parentless => "root hurlin file passed was `/` or otherwise parentless",
        }
    }
}

/// The directory that imports are capped to.
pub struct PathDir {
    path: String,
}

impl PathDir {
    /// The path of the directory.
    pub closed spec fn root(&self) -> Seq<char> {
        self.path@
    }

    /// The directory at `path`.
    pub fn new(path: String) -> (dir: Self)
        ensures
            dir.root() == path@,
    {
        PathDir { path }
    }

    /// The path of the directory.
    pub fn path(&self) -> (path: &str)
        ensures
            path@ == self.root(),
    {
        self.path.as_str()
    }

    /// The search for the directory where none was given: it starts in `cwd`, and falls back on
    /// where `root_file` lies, as seen from `cwd`.
    pub fn parse_base_dir(root_file: &str, cwd: &str) -> (search: BaseDirSearch)
        ensures
            search.wf(),
            is_ancestry(search.remaining(), cwd@),
            search.otherwise() == (match parent_of(root_file@) {
                Some(dir) => Some(joined(cwd@, dir)),
                None => None,
            }),
    {
        let fallback = match parent(root_file) {
            Some(dir) => Some(join(cwd, dir.as_str())),
            None => None,
        };
        BaseDirSearch::over(ancestors(cwd), fallback)
    }

    /// A canonical path, as seen from the directory. A path that does not begin with the names of
    /// the directory is refused; what is left of another is relative and holds the names that
    /// follow, and `to_root` gives the path back.
    pub fn from_root(&self, canon: &str) -> (result: Result<String, PathError>)
        ensures
            match result {
                Ok(path) => {
                    &&& stripped(canon@, self.root()) == Some(path@)
                    &&& begins_with(canon@, self.root())
                    &&& is_relative(path@) && !is_verbatim(canon@) ==> {
                        &&& names_follow(canon@, self.root(), path@)
                        &&& same_names(joined(self.root(), path@), canon@)
                    }
                    &&& lies_below(canon@, self.root()) ==> {
                        &&& is_relative(path@)
                        &&& names_follow(canon@, self.root(), path@)
                        &&& joined(self.root(), path@) == canon@
                    }
                    &&& canon@ == self.root() ==> is_relative(path@) && path@ == Seq::<
                        char,
                    >::empty()
                    &&& are_canonical(canon@, self.root()) ==> canon@ == self.root() || lies_below(
                        canon@,
                        self.root(),
                    )
                },
                Err(error) => {
                    &&& stripped(canon@, self.root()) is None
                    &&& canon@ != self.root()
                    &&& !lies_below(canon@, self.root())
                    &&& error == PathError::OutsideCap
                },
            },
    {
        let rest = strip_prefix(canon, self.path.as_str());
        proof {
            if rest is Some && are_canonical(canon@, self.root()) {
                lemma_canonical_begins(canon@, self.root());
            }
        }
        Self::from_stripped(rest)
    }

    /// What is left of a path below the directory, where anything is.
    pub fn from_stripped(rest: Option<String>) -> (result: Result<String, PathError>)
        ensures
            result == (match rest {
                Some(rest) => Ok::<String, PathError>(rest),
                None => Err::<String, PathError>(PathError::OutsideCap),
            }),
    {
        match rest {
            Some(rest) => Ok(rest),
            None => Err(PathError::OutsideCap),
        }
    }

    /// A path in the directory, as seen from outside.
    pub fn to_root(&self, canon_path: &str) -> (path: String)
        ensures
            path@ == joined(self.root(), canon_path@),
    {
        join(self.path.as_str(), canon_path)
    }
}

/// What a search for the capped directory does next.
pub enum BaseDirStep {
    /// Find out whether this path exists.
    Probe(String),
    /// Cap to this directory.
    Use(String),
    /// Give up.
    Fail(PathError),
}

/// The search for the directory to cap imports to, where none was given: the nearest directory of
/// a git repository, going up from the working directory, or else the directory of the root file.
pub struct BaseDirSearch {
    candidates: Vec<String>,
    next: usize,
    fallback: Option<String>,
}

impl BaseDirSearch {
    /// The directories still to be looked at, nearest first.
    pub closed spec fn remaining(&self) -> Seq<Seq<char>> {
        text::texts(self.candidates@).skip(self.next as int)
    }

    /// The directory to take if none of them will do.
    pub closed spec fn otherwise(&self) -> Option<Seq<char>> {
        text::optional(self.fallback)
    }

    /// Where the search ends if a path exists exactly when `exists_at` says so.
    pub open spec fn ends_at(&self, exists_at: spec_fn(Seq<char>) -> bool) -> Option<Seq<char>> {
        search_outcome(self.remaining(), self.otherwise(), exists_at)
    }

    /// The search stands at one of its candidates or behind the last.
    pub closed spec fn wf(&self) -> bool {
        self.next <= self.candidates.len()
    }

    /// The search that looks at `candidates` in turn.
    pub fn over(candidates: Vec<String>, fallback: Option<String>) -> (search: Self)
        ensures
            search.wf(),
            search.remaining() == text::texts(candidates@),
            search.otherwise() == text::optional(fallback),
    {
        let search = BaseDirSearch { candidates, next: 0, fallback };
        assert(search.remaining() =~= text::texts(candidates@));
        search
    }

    /// What to do next.
    pub fn step(&self) -> (step: BaseDirStep)
        requires
            self.wf(),
        ensures
            match step {
                BaseDirStep::Probe(git) => self.remaining().len() > 0 && git@ == joined(
                    self.remaining()[0],
                    ".git"@,
                ),
                BaseDirStep::Use(dir) => self.remaining().len() == 0 && self.otherwise() == Some(
                    dir@,
                ),
                BaseDirStep::Fail(error) => self.remaining().len() == 0 && self.otherwise() is None
                    && error == PathError::Parentless,
            },
            forall|exists_at: spec_fn(Seq<char>) -> bool|
                match step {
                    BaseDirStep::Probe(_) => true,
                    BaseDirStep::Use(dir) => #[trigger] self.ends_at(exists_at) == Some(dir@),
                    BaseDirStep::Fail(_) => self.ends_at(exists_at) is None,
                },
    {
        if self.next < self.candidates.len() {
            return BaseDirStep::Probe(join(self.candidates[self.next].as_str(), ".git"));
        }
        match &self.fallback {
            Some(dir) => BaseDirStep::Use(dir.clone()),
            None => BaseDirStep::Fail(PathError::Parentless),
        }
    }

    /// Takes the answer to a probe: the directory, if this settles the search. A truthful answer
    /// leads to where the search ends.
    pub fn answer(&mut self, found: bool) -> (dir: Option<String>)
        requires
            old(self).wf(),
            old(self).remaining().len() > 0,
        ensures
            final(self).wf(),
            final(self).remaining() == old(self).remaining().drop_first(),
            final(self).otherwise() == old(self).otherwise(),
            text::optional(dir) == (if found {
                Some(old(self).remaining()[0])
            } else {
                None
            }),
            forall|exists_at: spec_fn(Seq<char>) -> bool|
                found == exists_at(joined(old(self).remaining()[0], ".git"@)) ==> #[trigger] old(
                    self,
                ).ends_at(exists_at) == (if found {
                    text::optional(dir)
                } else {
                    final(self).ends_at(exists_at)
                }),
    {
        let at = self.next;
        self.next = at + 1;
        assert(self.remaining() =~= old(self).remaining().drop_first());
        if found {
            Some(self.candidates[at].clone())
        } else {
            None
        }
    }
}

/// Where a search ends if a path exists exactly when `exists_at` says so.
pub open spec fn search_outcome(
    remaining: Seq<Seq<char>>,
    otherwise: Option<Seq<char>>,
    exists_at: spec_fn(Seq<char>) -> bool,
) -> Option<Seq<char>>
    decreases remaining.len(),
{
    if remaining.len() == 0 {
        otherwise
    } else if exists_at(joined(remaining[0], ".git"@)) {
        Some(remaining[0])
    } else {
        search_outcome(remaining.drop_first(), otherwise, exists_at)
    }
}

/// A search that is answered truthfully ends at the nearest directory that holds a repository.
pub proof fn law_nearest_repository(
    remaining: Seq<Seq<char>>,
    otherwise: Option<Seq<char>>,
    exists_at: spec_fn(Seq<char>) -> bool,
    at: int,
)
    requires
        0 <= at < remaining.len(),
        exists_at(joined(remaining[at], ".git"@)),
        forall|i: int| 0 <= i < at ==> !exists_at(joined(#[trigger] remaining[i], ".git"@)),
    ensures
        search_outcome(remaining, otherwise, exists_at) == Some(remaining[at]),
    decreases remaining.len(),
{
    if at > 0 {
        assert(!exists_at(joined(remaining[0], ".git"@)));
        let rest = remaining.drop_first();
        assert forall|i: int| 0 <= i < at - 1 implies !exists_at(
            joined(#[trigger] rest[i], ".git"@),
        ) by {
            assert(rest[i] == remaining[i + 1]);
        }
        law_nearest_repository(rest, otherwise, exists_at, at - 1);
    }
}

/// A search that finds no repository ends at the directory of the root file.
pub proof fn law_no_repository(
    remaining: Seq<Seq<char>>,
    otherwise: Option<Seq<char>>,
    exists_at: spec_fn(Seq<char>) -> bool,
)
    requires
        forall|i: int|
            0 <= i < remaining.len() ==> !exists_at(joined(#[trigger] remaining[i], ".git"@)),
    ensures
        search_outcome(remaining, otherwise, exists_at) == otherwise,
    decreases remaining.len(),
{
    if remaining.len() > 0 {
        assert(!exists_at(joined(remaining[0], ".git"@)));
        let rest = remaining.drop_first();
        assert forall|i: int| 0 <= i < rest.len() implies !exists_at(
            joined(#[trigger] rest[i], ".git"@),
        ) by {
            assert(rest[i] == remaining[i + 1]);
        }
        law_no_repository(rest, otherwise, exists_at);
    }
}

} // verus!
