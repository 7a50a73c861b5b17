//! What crosses the boundary to the key-value store: the keys of the two
//! stored records, the outcome of a read, and the write that a caller is
//! asked to perform.

use vstd::prelude::*;
use crate::failure::Failure;

verus! {

/// The key under which the whole ordered list is stored.
pub const LIST_KEY: &'static str = "list";

/// The key under which the accounts are stored.
pub const ACCOUNTS_KEY: &'static str = "accounts";

/// The outcome of reading one record from the store.
#[derive(Clone, Debug, PartialEq, Eq)]
pub enum Fetched<T> {
    /// The store holds nothing under the key.
    Absent,
    /// The store holds a value that does not have the record's shape.
    Malformed,
    /// The store could not be reached.
    Unreachable,
    /// The record.
    Found(T),
}

impl<T> Fetched<T> {
    /// The record, or the failure that its absence amounts to.
    pub fn into_result(self) -> (record: Result<T, Failure>)
        ensures
            record == match self {
                Fetched::Absent => Err::<T, Failure>(Failure::NotFound),
                Fetched::Malformed => Err(Failure::Decode),
                Fetched::Unreachable => Err(Failure::StoreRead),
                Fetched::Found(value) => Ok(value),
            },
    {
        match self {
            Fetched::Absent => Err(Failure::NotFound),
            Fetched::Malformed => Err(Failure::Decode),
            Fetched::Unreachable => Err(Failure::StoreRead),
            Fetched::Found(value) => Ok(value),
        }
    }
}

/// A write that the caller is to perform: `value` replaces whatever the
/// store holds under `key`, unconditionally.
#[derive(Clone, Debug, PartialEq, Eq)]
pub struct StoreWrite {
    pub key: String,
    pub value: String,
}

} // verus!
