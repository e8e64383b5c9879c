//! File names, each known by a number.

use lasso::Key;
use vstd::prelude::*;

verus! {

/// The number that a file name is known by.
pub type FileNameRef = usize;

/// `lasso`'s interner.
#[verifier::external_type_specification]
#[verifier::external_body]
#[verifier::reject_recursive_types(K)]
#[verifier::reject_recursive_types(S)]
pub struct ExThreadedRodeo<K, S>(lasso::ThreadedRodeo<K, S>);

/// `lasso`'s default key.
#[verifier::external_type_specification]
#[verifier::external_body]
pub struct ExSpur(lasso::Spur);

/// The strings that an interner holds, each under the number of its key.
pub uninterp spec fn interned(rodeo: lasso::ThreadedRodeo) -> Map<usize, Seq<char>>;

/// `lasso::ThreadedRodeo::new`: an interner that holds nothing.
#[verifier::external_body]
fn new_rodeo() -> (rodeo: lasso::ThreadedRodeo)
    ensures
        interned(rodeo) == (Map::<usize, Seq<char>>::empty()),
{
    lasso::ThreadedRodeo::new()
}

/// `lasso::ThreadedRodeo::try_get_or_intern`, `None` in place of its error. A string that is held
/// keeps its key, and nothing changes. Any other string is given a key that was not in use, unless
/// keys or memory have run out; then nothing changes. (The keys count upwards from zero.)
///
/// The method takes `&self`; the wrapper takes `&mut`, since what the interner holds may change.
#[verifier::external_body]
fn try_get_or_intern(rodeo: &mut lasso::ThreadedRodeo, name: &str) -> (key: Option<usize>)
    ensures
        forall|held: usize|
            interned(*old(rodeo)).contains_key(held) && #[trigger] interned(*old(rodeo))[held]
                == name@ ==> key is Some,
        match key {
            Some(key) => if interned(*old(rodeo)).contains_key(key) {
                &&& interned(*old(rodeo))[key] == name@
                &&& interned(*final(rodeo)) == interned(*old(rodeo))
            } else {
                &&& !interned(*old(rodeo)).contains_value(name@)
                &&& interned(*final(rodeo)) == interned(*old(rodeo)).insert(key, name@)
            },
            None => interned(*final(rodeo)) == interned(*old(rodeo)),
        },
{
    rodeo.try_get_or_intern(name).ok().map(|key| key.into_usize())
}

/// `lasso::ThreadedRodeo::resolve`: the string under a key. It panics on a key that is not in use.
#[verifier::external_body]
fn resolve_key(rodeo: &lasso::ThreadedRodeo, key: usize) -> (name: String)
    requires
        interned(*rodeo).contains_key(key),
    ensures
        name@ == interned(*rodeo)[key],
{
    rodeo.resolve(&lasso::Spur::try_from_usize(key).unwrap()).to_string()
}

/// The file names that are known.
pub struct Interner {
    rodeo: lasso::ThreadedRodeo,
}

impl View for Interner {
    type V = Map<FileNameRef, Seq<char>>;

    closed spec fn view(&self) -> Map<FileNameRef, Seq<char>> {
        interned(self.rodeo)
    }
}

impl Interner {
    /// No name is known by two numbers.
    pub open spec fn wf(&self) -> bool {
        forall|a: FileNameRef, b: FileNameRef|
            self@.contains_key(a) && self@.contains_key(b) && #[trigger] self@[a]
                == #[trigger] self@[b] ==> a == b
    }

    /// No file name is known.
    pub fn new() -> (interner: Self)
        ensures
            interner.wf(),
            interner@ == Map::<FileNameRef, Seq<char>>::empty(),
    {
        Interner { rodeo: new_rodeo() }
    }

    /// The number of `name`, a new one if `name` is new. `None`, and nothing changes, if there is
    /// no new one to be had.
    pub fn get_or_intern(&mut self, name: &str) -> (file: Option<FileNameRef>)
        requires
            old(self).wf(),
        ensures
            final(self).wf(),
            match file {
                Some(file) => {
                    &&& old(self)@.contains_value(name@) <==> old(self)@.contains_key(file)
                    &&& old(self)@.contains_key(file) ==> old(self)@[file] == name@
                    &&& final(self)@ == old(self)@.insert(file, name@)
                },
                None => !old(self)@.contains_value(name@) && final(self)@ == old(self)@,
            },
            old(self)@.submap_of(final(self)@),
    {
        let file = try_get_or_intern(&mut self.rodeo, name);
        proof {
            if file is None && old(self)@.contains_value(name@) {
                let held = choose|held: FileNameRef|
                    #[trigger] old(self)@.contains_key(held) && old(self)@[held] == name@;
                assert(interned(old(self).rodeo)[held] == name@);
            }
            if let Some(file) = file {
                if old(self)@.contains_key(file) {
                    assert(old(self)@[file] == name@);
                    assert(old(self)@ =~= old(self)@.insert(file, name@));
                }
            }
        }
        file
    }

    /// The name that `file` is the number of.
    pub fn resolve(&self, file: FileNameRef) -> (name: String)
        requires
            self@.contains_key(file),
        ensures
            name@ == self@[file],
    {
        resolve_key(&self.rodeo, file)
    }
}

} // verus!
