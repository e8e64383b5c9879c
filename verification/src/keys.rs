//! The three kinds of keys: one for the session, one for each running task, and one for each
//! result to be awaited.

use vstd::prelude::*;

use crate::failure::RequestError;
use crate::hexkey;
use crate::hexkey::HexKey;
use crate::table::TableKey;

verus! {

/// The key of a session: requests must carry it.
#[derive(Hash, Copy, Clone)]
pub struct HurlinKey(HexKey);

impl View for HurlinKey {
    type V = Seq<char>;

    closed spec fn view(&self) -> Seq<char> {
        self.0@
    }
}

impl HurlinKey {
    /// The key as text.
    pub fn as_str(&self) -> (text: &str)
        ensures
            text@ == self@,
            hexkey::is_key_text(text@),
    {
        self.0.as_str()
    }

    /// The key that `data` spells: `data` must be sixteen hexadecimal digits.
    pub fn validate(data: &str) -> (key: Result<Self, ()>)
        ensures
            key is Ok <==> hexkey::is_key_text(data@),
            key matches Ok(key) ==> key@ == data@,
    {
        match HexKey::validate(data) {
            Ok(key) => Ok(HurlinKey(key)),
            Err(()) => Err(()),
        }
    }

    /// A key for a new session.
    pub fn new() -> (key: Self)
        ensures
            hexkey::is_drawn(key@),
            hexkey::is_key_text(key@),
    {
        HurlinKey(HexKey::new())
    }

    /// The key as text of its own.
    pub fn to_string(&self) -> (text: String)
        ensures
            text@ == self@,
            hexkey::is_key_text(text@),
    {
        self.as_str().to_owned()
    }

    /// The key that `data` spells, or the reason to refuse the request.
    pub fn validate_or_log(data: &str) -> (key: Result<Self, RequestError>)
        ensures
            match key {
                Ok(key) => hexkey::is_key_text(data@) && key@ == data@,
                Err(error) => !hexkey::is_key_text(data@) && error == RequestError::BadHurlinKey,
            },
    {
        match Self::validate(data) {
            Ok(key) => Ok(key),
            Err(()) => Err(RequestError::BadHurlinKey),
        }
    }

    /// Keys are told apart by their text.
    pub proof fn law_same_text_same_key(a: HurlinKey, b: HurlinKey)
        ensures
            a@ == b@ <==> a == b,
    {
        hexkey::law_same_text_same_key(a.0, b.0);
    }
}

impl TableKey for HurlinKey {
    fn same(&self, other: &Self) -> (result: bool) {
        self.0.same(&other.0)
    }
}

impl PartialEq for HurlinKey {
    fn eq(&self, other: &Self) -> (result: bool) {
        self.same(other)
    }
}

impl vstd::std_specs::cmp::PartialEqSpecImpl for HurlinKey {
    open spec fn obeys_eq_spec() -> bool {
        true
    }

    open spec fn eq_spec(&self, other: &Self) -> bool {
        *self == *other
    }
}

impl Eq for HurlinKey {

}

/// The key of a running task.
#[derive(Hash, Copy, Clone)]
pub struct TaskId(HexKey);

impl View for TaskId {
    type V = Seq<char>;

    closed spec fn view(&self) -> Seq<char> {
        self.0@
    }
}

impl TaskId {
    /// The key as text.
    pub fn as_str(&self) -> (text: &str)
        ensures
            text@ == self@,
            hexkey::is_key_text(text@),
    {
        self.0.as_str()
    }

    /// The key that `data` spells: `data` must be sixteen hexadecimal digits.
    pub fn validate(data: &str) -> (key: Result<Self, ()>)
        ensures
            key is Ok <==> hexkey::is_key_text(data@),
            key matches Ok(key) ==> key@ == data@,
    {
        match HexKey::validate(data) {
            Ok(key) => Ok(TaskId(key)),
            Err(()) => Err(()),
        }
    }

    /// A random key for a task.
    pub fn new() -> (key: Self)
        ensures
            hexkey::is_drawn(key@),
            hexkey::is_key_text(key@),
    {
        TaskId(HexKey::new())
    }

    /// The key as text of its own.
    pub fn to_string(&self) -> (text: String)
        ensures
            text@ == self@,
            hexkey::is_key_text(text@),
    {
        self.as_str().to_owned()
    }

    /// The key that `data` spells, or the reason to refuse the request.
    pub fn validate_or_log(data: &str) -> (key: Result<Self, RequestError>)
        ensures
            match key {
                Ok(key) => hexkey::is_key_text(data@) && key@ == data@,
                Err(error) => !hexkey::is_key_text(data@) && error == RequestError::BadTaskId,
            },
    {
        match Self::validate(data) {
            Ok(key) => Ok(key),
            Err(()) => Err(RequestError::BadTaskId),
        }
    }

    /// Keys are told apart by their text.
    pub proof fn law_same_text_same_key(a: TaskId, b: TaskId)
        ensures
            a@ == b@ <==> a == b,
    {
        hexkey::law_same_text_same_key(a.0, b.0);
    }
}

impl TableKey for TaskId {
    fn same(&self, other: &Self) -> (result: bool) {
        self.0.same(&other.0)
    }
}

impl PartialEq for TaskId {
    fn eq(&self, other: &Self) -> (result: bool) {
        self.same(other)
    }
}

impl vstd::std_specs::cmp::PartialEqSpecImpl for TaskId {
    open spec fn obeys_eq_spec() -> bool {
        true
    }

    open spec fn eq_spec(&self, other: &Self) -> bool {
        *self == *other
    }
}

impl Eq for TaskId {

}

/// The key under which the result of a task is awaited.
#[derive(Hash, Copy, Clone)]
pub struct AsyncKey(HexKey);

impl View for AsyncKey {
    type V = Seq<char>;

    closed spec fn view(&self) -> Seq<char> {
        self.0@
    }
}

impl AsyncKey {
    /// The key as text.
    pub fn as_str(&self) -> (text: &str)
        ensures
            text@ == self@,
            hexkey::is_key_text(text@),
    {
        self.0.as_str()
    }

    /// The key that `data` spells: `data` must be sixteen hexadecimal digits.
    pub fn validate(data: &str) -> (key: Result<Self, ()>)
        ensures
            key is Ok <==> hexkey::is_key_text(data@),
            key matches Ok(key) ==> key@ == data@,
    {
        match HexKey::validate(data) {
            Ok(key) => Ok(AsyncKey(key)),
            Err(()) => Err(()),
        }
    }

    /// A random key to wait under.
    pub fn new() -> (key: Self)
        ensures
            hexkey::is_drawn(key@),
            hexkey::is_key_text(key@),
    {
        AsyncKey(HexKey::new())
    }

    /// The key as text of its own.
    pub fn to_string(&self) -> (text: String)
        ensures
            text@ == self@,
            hexkey::is_key_text(text@),
    {
        self.as_str().to_owned()
    }

    /// Keys are told apart by their text.
    pub proof fn law_same_text_same_key(a: AsyncKey, b: AsyncKey)
        ensures
            a@ == b@ <==> a == b,
    {
        hexkey::law_same_text_same_key(a.0, b.0);
    }
}

impl TableKey for AsyncKey {
    fn same(&self, other: &Self) -> (result: bool) {
        self.0.same(&other.0)
    }
}

impl PartialEq for AsyncKey {
    fn eq(&self, other: &Self) -> (result: bool) {
        self.same(other)
    }
}

impl vstd::std_specs::cmp::PartialEqSpecImpl for AsyncKey {
    open spec fn obeys_eq_spec() -> bool {
        true
    }

    open spec fn eq_spec(&self, other: &Self) -> bool {
        *self == *other
    }
}

impl Eq for AsyncKey {

}

impl TableKey for (AsyncKey, TaskId) {
    fn same(&self, other: &Self) -> (result: bool) {
        self.0.same(&other.0) && self.1.same(&other.1)
    }
}

} // verus!
