//! The failures that the operations of this crate report.

use vstd::prelude::*;

verus! {

/// Why credentials were turned away.
#[derive(Clone, Copy, Debug, PartialEq, Eq, Structural)]
pub enum AuthError {
    /// The username or the password was absent, or was not a plain text field.
    InvalidParameter,
    /// No account carries the supplied username.
    InvalidUsername,
    /// The account exists and its password differs from the supplied one.
    InvalidPassword,
}

/// Every failure that an operation can end in.
#[derive(Clone, Copy, Debug, PartialEq, Eq, Structural)]
pub enum Failure {
    /// A required field was absent or was not a plain text field.
    Validation,
    /// An index or a key was not the text of a non-negative integer.
    Parse,
    /// An index addressed no element of the list.
    IndexOutOfRange,
    /// The credentials were refused.
    Auth(AuthError),
    /// The record that was asked for is not in the store.
    NotFound,
    /// The stored record does not have the expected shape.
    Decode,
    /// The store could not be read.
    StoreRead,
    /// The store could not be written, or the value could not be serialised.
    StoreWrite,
}

/// How a failure is answered: who is at fault.
#[derive(Clone, Copy, Debug, PartialEq, Eq, Structural)]
pub enum FailureClass {
    /// The request was wrong; repeating it unchanged cannot succeed.
    Client,
    /// The credentials were refused.
    Unauthorized,
    /// The store failed; nothing was partially written.
    Internal,
}

impl Failure {
    /// The class of this failure, as a specification.
    pub open spec fn spec_class(self) -> FailureClass {
        match self {
            Failure::Validation | Failure::Parse | Failure::IndexOutOfRange => FailureClass::Client,
            Failure::Auth(_) => FailureClass::Unauthorized,
            Failure::NotFound | Failure::Decode | Failure::StoreRead | Failure::StoreWrite => FailureClass::Internal,
        }
    }

    /// The class of this failure.
    pub fn class(&self) -> (class: FailureClass)
        ensures
            class == self.spec_class(),
    {
        match self {
            Failure::Validation | Failure::Parse | Failure::IndexOutOfRange => FailureClass::Client,
            Failure::Auth(_) => FailureClass::Unauthorized,
            Failure::NotFound | Failure::Decode | Failure::StoreRead | Failure::StoreWrite => FailureClass::Internal,
        }
    }
}

} // verus!
