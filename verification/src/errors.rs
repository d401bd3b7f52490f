//! The error taxonomy of the runtime core.
//!
//! Every failure the core can detect is reported as one of these values,
//! so that an embedding host (a shell, a supervising scheduler) can recover
//! per thread instead of crashing the process.

use vstd::prelude::*;

verus! {

use crate::types::{Type, TypeModel};

/// A failure detected by the runtime core.
#[derive(Debug, PartialEq)]
pub enum Error {
    /// A value's type does not unify with the declared type; at a call
    /// site, `function` names the callee.
    TypeMismatch { function: Option<String>, expected: Type, actual: Type },
    /// A name was read or called that no scope or table binds.
    UnboundName(String),
    /// An assignment targeted immutable storage.
    ImmutableAssignment,
    /// An instance was registered for a typeclass that was never declared.
    UnknownTypeclass,
    /// A call resolved to something that is not a function.
    InvalidCall(String),
    /// A spawned call tried to pass an argument by reference.
    ReferenceInThreadedCall,
    /// A lock's holder died mid-update; the stale value must not be read.
    PoisonedLock,
}

/// The mathematical model of an [`Error`].
#[verifier::ext_equal]
pub enum ErrorModel {
    TypeMismatch { function: Option<Seq<char>>, expected: TypeModel, actual: TypeModel },
    UnboundName(Seq<char>),
    ImmutableAssignment,
    UnknownTypeclass,
    InvalidCall(Seq<char>),
    ReferenceInThreadedCall,
    PoisonedLock,
}

impl Error {
    /// The mathematical model of this error.
    pub open spec fn model(&self) -> ErrorModel {
        match self {
            Error::TypeMismatch { function, expected, actual } => ErrorModel::TypeMismatch {
                function: match function {
                    Some(f) => Some(f@),
                    None => None,
                },
                expected: expected@,
                actual: actual@,
            },
            Error::UnboundName(n) => ErrorModel::UnboundName(n@),
            Error::ImmutableAssignment => ErrorModel::ImmutableAssignment,
            Error::UnknownTypeclass => ErrorModel::UnknownTypeclass,
            Error::InvalidCall(n) => ErrorModel::InvalidCall(n@),
            Error::ReferenceInThreadedCall => ErrorModel::ReferenceInThreadedCall,
            Error::PoisonedLock => ErrorModel::PoisonedLock,
        }
    }
}

impl View for Error {
    type V = ErrorModel;

    open spec fn view(&self) -> ErrorModel {
        self.model()
    }
}

} // verus!
