//! Which requests are let through.

use vstd::prelude::*;

use crate::failure::RequestError;
use crate::hexkey;
use crate::keys::{HurlinKey, TaskId};
use crate::state::{HurlinState, StateView};
use crate::table::TableKey;

verus! {

/// The path of a request, taken apart.
pub enum RpcPath {
    /// Session key, task and argument.
    WithArgument(String, String, String),
    /// Session key and task.
    Plain(String, String),
    /// Anything else.
    Other,
}

/// A request that was let through: the task that it comes from, and its argument.
pub struct HurlinRPC(pub TaskId, pub Option<String>);

impl<L, W> StateView<L, W> {
    /// A task by the name of `task` is running.
    pub open spec fn runs(self, task: Seq<char>) -> bool {
        exists|id: TaskId| self.running.contains_key(id) && #[trigger] id@ == task
    }

    /// Why a request with these parts is refused, `None` if it is not.
    pub open spec fn refusal(self, key: Seq<char>, task: Seq<char>) -> Option<RequestError> {
        if !hexkey::is_key_text(key) {
            Some(RequestError::BadHurlinKey)
        } else if !hexkey::is_key_text(task) {
            Some(RequestError::BadTaskId)
        } else if key != self.key@ {
            Some(RequestError::WrongHurlinKey)
        } else if !self.runs(task) {
            Some(RequestError::UnknownTask)
        } else {
            None
        }
    }
}

impl HurlinRPC {
    /// Lets a request through if it carries the key of the session and the key of a running task.
    pub fn from_request_parts<L, W>(path: RpcPath, state: &HurlinState<L, W>) -> (rpc: Result<
        Self,
        RequestError,
    >)
        ensures
            match path {
                RpcPath::WithArgument(key, task, argument) => match rpc {
                    Ok(rpc) => {
                        &&& state@.refusal(key@, task@) is None
                        &&& rpc.0@ == task@
                        &&& state@.running.contains_key(rpc.0)
                        &&& rpc.1 == Some(argument)
                    },
                    Err(error) => state@.refusal(key@, task@) == Some(error),
                },
                RpcPath::Plain(key, task) => match rpc {
                    Ok(rpc) => {
                        &&& state@.refusal(key@, task@) is None
                        &&& rpc.0@ == task@
                        &&& state@.running.contains_key(rpc.0)
                        &&& rpc.1 is None
                    },
                    Err(error) => state@.refusal(key@, task@) == Some(error),
                },
                RpcPath::Other => rpc == Err::<Self, RequestError>(RequestError::BadPath),
            },
    {
        let (key, task, argument) = match path {
            RpcPath::WithArgument(key, task, argument) => (key, task, Some(argument)),
            RpcPath::Plain(key, task) => (key, task, None),
            RpcPath::Other => return Err(RequestError::BadPath),
        };
        let id = state.sender(key.as_str(), task.as_str())?;
        Ok(HurlinRPC(id, argument))
    }

    /// The argument of the request, empty if it has none.
    pub fn argument(&self) -> (argument: &str)
        ensures
            argument@ == (match self.1 {
                Some(argument) => argument@,
                None => Seq::<char>::empty(),
            }),
    {
        match &self.1 {
            Some(argument) => argument.as_str(),
            None => {
                proof {
                    reveal_strlit("");
                }
                ""
            },
        }
    }
}

impl<L, W> HurlinState<L, W> {
    /// The task that a request comes from, if it may pass.
    fn sender(&self, key: &str, task: &str) -> (id: Result<TaskId, RequestError>)
        ensures
            match id {
                Ok(id) => {
                    &&& self@.refusal(key@, task@) is None
                    &&& id@ == task@
                    &&& self@.running.contains_key(id)
                },
                Err(error) => self@.refusal(key@, task@) == Some(error),
            },
    {
        let hurlin_key = match HurlinKey::validate_or_log(key) {
            Ok(key) => key,
            Err(error) => return Err(error),
        };
        let id = match TaskId::validate_or_log(task) {
            Ok(id) => id,
            Err(error) => return Err(error),
        };
        proof {
            HurlinKey::law_same_text_same_key(hurlin_key, self.key);
        }
        if !hurlin_key.same(&self.key) {
            return Err(RequestError::WrongHurlinKey);
        }
        if !self.running_tasks.contains_key(&id) {
            proof {
                if self@.runs(task@) {
                    let other = choose|other: TaskId|
                        self@.running.contains_key(other) && #[trigger] other@ == task@;
                    TaskId::law_same_text_same_key(other, id);
                }
            }
            return Err(RequestError::UnknownTask);
        }
        Ok(id)
    }
}

} // verus!
