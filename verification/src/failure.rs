//! How requests fail.

use vstd::prelude::*;

use crate::keys::TaskId;

verus! {

/// The HTTP statuses that a refused request is answered with.
#[derive(Copy, Clone, Debug, PartialEq, Eq, Structural)]
pub enum StatusCode {
    BadRequest,
    Unauthorized,
    Forbidden,
    FailedDependency,
    InternalServerError,
}

impl StatusCode {
    /// The number of the status.
    pub open spec fn number(self) -> u16 {
        match self {
            StatusCode::BadRequest => 400,
            StatusCode::Unauthorized => 401,
            StatusCode::Forbidden => 403,
            StatusCode::FailedDependency => 424,
            StatusCode::InternalServerError => 500,
        }
    }

    /// The number of the status.
    pub fn as_u16(self) -> (number: u16)
        ensures
            number == self.number(),
    {
        match self {
            StatusCode::BadRequest => 400,
            StatusCode::Unauthorized => 401,
            StatusCode::Forbidden => 403,
            StatusCode::FailedDependency => 424,
            StatusCode::InternalServerError => 500,
        }
    }
}

/// Why a request was refused.
pub enum RequestError {
    /// The path of the request has neither two nor three parts.
    BadPath,
    /// The session key is not sixteen hexadecimal digits.
    BadHurlinKey,
    /// The task is not sixteen hexadecimal digits.
    BadTaskId,
    /// The session key is that of another session.
    WrongHurlinKey,
    /// The task is not running.
    UnknownTask,
    /// The query of an import could not be read.
    BadImportQuery,
    /// The query of an import holds parameters that imports do not have.
    ExtraImportParameters(Vec<String>),
    /// The importing task is no longer running.
    NotRunning,
    /// The path does not exist, or leads out of the capped directory.
    NotCanonical(String),
    /// No further file name can be told apart from those already known.
    InternerFull,
    /// The import would close a cycle: the imported file, and the files through which it imports
    /// the importing one.
    ImportCycle { imported: String, chain: Vec<String> },
    /// The await key is not sixteen hexadecimal digits.
    BadAsyncKey,
    /// The task has nothing to wait for under the await key.
    UnclaimedAsyncKey,
    /// The hurl task of a file ended in failure.
    TaskFailed { task: TaskId, file: String },
}

impl RequestError {
    /// The status that answers the request.
    pub open spec fn answer(&self) -> StatusCode {
        match self {
            RequestError::WrongHurlinKey => StatusCode::Forbidden,
            RequestError::NotRunning => StatusCode::Unauthorized,
            RequestError::NotCanonical(_) | RequestError::InternerFull =>
                StatusCode::InternalServerError,
            RequestError::ImportCycle { .. } | RequestError::TaskFailed { .. } =>
                StatusCode::FailedDependency,
            _ => StatusCode::BadRequest,
        }
    }

    /// The status that answers the request.
    pub fn status(&self) -> (status: StatusCode)
        ensures
            status == self.answer(),
    {
        match self {
            RequestError::WrongHurlinKey => StatusCode::Forbidden,
            RequestError::NotRunning => StatusCode::Unauthorized,
            RequestError::NotCanonical(_) | RequestError::InternerFull =>
                StatusCode::InternalServerError,
            RequestError::ImportCycle { .. } | RequestError::TaskFailed { .. } =>
                StatusCode::FailedDependency,
            _ => StatusCode::BadRequest,
        }
    }
}

/// A refused request is never answered with a status between 200 and 299.
pub proof fn law_refusals_are_not_success(error: RequestError)
    ensures
        !(200 <= error.answer().number() < 300),
{
}

} // verus!
