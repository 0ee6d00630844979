//! Process result codes.
use vstd::prelude::*;

verus! {

#[derive(Debug, Clone, Copy, PartialEq, Eq, Structural)]
pub enum ResultCode {
    Success,
    SuccessAnalyticsFailed,
    InvalidArgs,
    CancelOperation,
    PCNameNotSet,
    AnalyticsFetchFailed,
    ConfigUpdateFailed,
    PathError,
    DbError,
    SerializationError,
    EnvError,
    CryptoError,
}

impl ResultCode {
    /// The process exit code that stands for this result.
    pub open spec fn code(self) -> i32 {
        match self {
            ResultCode::Success => 0,
            ResultCode::SuccessAnalyticsFailed => 1,
            ResultCode::InvalidArgs => 15,
            ResultCode::CancelOperation => 17,
            ResultCode::PCNameNotSet => 19,
            ResultCode::AnalyticsFetchFailed => 26,
            ResultCode::ConfigUpdateFailed => 39,
            ResultCode::PathError => 66,
            ResultCode::DbError => 68,
            ResultCode::SerializationError => 72,
            ResultCode::EnvError => 77,
            ResultCode::CryptoError => 78,
        }
    }

    pub fn as_i32(&self) -> (r: i32)
        ensures
            r == self.code(),
    {
        match self {
            ResultCode::Success => 0,
            ResultCode::SuccessAnalyticsFailed => 1,
            ResultCode::InvalidArgs => 15,
            ResultCode::CancelOperation => 17,
            ResultCode::PCNameNotSet => 19,
            ResultCode::AnalyticsFetchFailed => 26,
            ResultCode::ConfigUpdateFailed => 39,
            ResultCode::PathError => 66,
            ResultCode::DbError => 68,
            ResultCode::SerializationError => 72,
            ResultCode::EnvError => 77,
            ResultCode::CryptoError => 78,
        }
    }
}

} // verus!
