//! An ordered collection of short text items kept in a remote key-value store,
//! and the credential check that guards its mutations.
//!
//! The crate holds the decisions only: it never talks to the store. A caller
//! fetches what a function needs, hands it over as plain values, and carries
//! out what the function returns.

pub mod acct;
pub mod auth;
pub mod decimal;
pub mod failure;
pub mod json;
pub mod keyed;
pub mod list;
pub mod request;
pub mod store;
