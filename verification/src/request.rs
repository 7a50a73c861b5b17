//! One request from its fields to its reply.
//!
//! A request passes through up to three stages, and the store is touched
//! between them, never inside one: the credentials are judged against the
//! accounts, the list is loaded and changed, and the changed list is written.
//! Each stage is a value that can only be had from the stage before it. A
//! request that changes the list reaches the list only with credentials that
//! passed and with all its fields, and a write is asked for only on that way.

use vstd::prelude::*;
use crate::acct::Accounts;
use crate::auth::{verdict, Auth, AuthState, Credentials};
use crate::decimal::parsed;
use crate::failure::{AuthError, Failure};
use crate::list::{list_document, moved, parse_index, ListManager};
use crate::store::{Fetched, StoreWrite, LIST_KEY};

verus! {

/// What a request asks for, with the fields that it carries. A field is
/// `None` where the request did not carry it, or carried something other than
/// plain text.
#[derive(Clone, Debug, PartialEq, Eq)]
pub enum Operation {
    /// Show the list. Needs no credentials.
    ListItems,
    /// Check the credentials and do nothing else.
    CheckCredentials,
    /// Put `content` behind the last item.
    AppendItem { content: Option<String> },
    /// Move the item at index `from` to index `to`.
    MoveItem { from: Option<String>, to: Option<String> },
    /// Remove the item at `index`.
    DeleteItem { index: Option<String> },
}

/// A request: what it asks for, and the credentials that came with it.
#[derive(Clone, Debug, PartialEq, Eq)]
pub struct Request {
    pub operation: Operation,
    pub credentials: Credentials,
}

/// The end of a request: the text to show, or the failure.
pub type Reply = Result<String, Failure>;

impl Operation {
    /// Whether the request needs credentials that pass. Only showing the
    /// list does not.
    pub open spec fn is_guarded(self) -> bool {
        !(self is ListItems)
    }

    /// Whether the list takes part. Checking credentials leaves it alone.
    pub open spec fn needs_list(self) -> bool {
        !(self is CheckCredentials)
    }

    /// Whether the request carries every field that the operation needs.
    pub open spec fn has_fields(self) -> bool {
        match self {
            Operation::ListItems | Operation::CheckCredentials => true,
            Operation::AppendItem { content } => content is Some,
            Operation::MoveItem { from, to } => from is Some && to is Some,
            Operation::DeleteItem { index } => index is Some,
        }
    }

    /// What the operation makes of the list `items`, or why it cannot be
    /// carried out.
    ///
    /// A missing field is a validation failure. An index that is no numeral,
    /// or none that fits, is a parse failure; for a move both indices are
    /// parsed before either is held against the list. An index that
    /// addresses no item is out of range; for a move both indices address
    /// the list as it is before the item is taken out.
    pub open spec fn applied(self, items: Seq<Seq<char>>) -> Result<Seq<Seq<char>>, Failure> {
        match self {
            Operation::ListItems | Operation::CheckCredentials => Ok(items),
            Operation::AppendItem { content } => match content {
                Some(item) => Ok(items.push(item@)),
                None => Err(Failure::Validation),
            },
            Operation::MoveItem { from, to } => match (from, to) {
                (Some(from), Some(to)) => match (
                    parsed(from@, usize::MAX as nat),
                    parsed(to@, usize::MAX as nat),
                ) {
                    (Some(a), Some(b)) => if a < items.len() && b < items.len() {
                        Ok(moved(items, a as int, b as int))
                    } else {
                        Err(Failure::IndexOutOfRange)
                    },
                    _ => Err(Failure::Parse),
                },
                _ => Err(Failure::Validation),
            },
            Operation::DeleteItem { index } => match index {
                Some(index) => match parsed(index@, usize::MAX as nat) {
                    Some(i) => if i < items.len() {
                        Ok(items.remove(i as int))
                    } else {
                        Err(Failure::IndexOutOfRange)
                    },
                    None => Err(Failure::Parse),
                },
                None => Err(Failure::Validation),
            },
        }
    }

    /// Whether the request carries every field that the operation needs.
    pub fn check_fields(&self) -> (complete: bool)
        ensures
            complete == self.has_fields(),
    {
        match self {
            Operation::ListItems | Operation::CheckCredentials => true,
            Operation::AppendItem { content } => content.is_some(),
            Operation::MoveItem { from, to } => from.is_some() && to.is_some(),
            Operation::DeleteItem { index } => index.is_some(),
        }
    }
}

impl ListManager {
    /// The end of a request that shows the list: its record, as `get_str`
    /// gives it.
    pub fn end_with_response(&self) -> (reply: Reply)
        ensures
            reply is Ok,
            reply matches Ok(body) ==> body@ == list_document(self@),
    {
        self.get_str()
    }

    /// Carries out `operation` on the list. The list changes only where the
    /// operation succeeds.
    pub fn apply(&mut self, operation: Operation) -> (done: Result<(), Failure>)
        ensures
            match operation.applied(old(self)@) {
                Ok(items) => done is Ok && final(self)@ == items,
                Err(e) => done == Err::<(), Failure>(e) && *final(self) == *old(self),
            },
    {
        match operation {
            Operation::ListItems | Operation::CheckCredentials => Ok(()),
            Operation::AppendItem { content } => match content {
                Some(item) => {
                    self.append(item);
                    Ok(())
                },
                None => Err(Failure::Validation),
            },
            Operation::MoveItem { from, to } => match (from, to) {
                (Some(from), Some(to)) => {
                    let a = parse_index(from.as_str());
                    let b = parse_index(to.as_str());
                    match (a, b) {
                        (Ok(a), Ok(b)) => self.move_item(a, b),
                        _ => Err(Failure::Parse),
                    }
                },
                _ => Err(Failure::Validation),
            },
            Operation::DeleteItem { index } => match index {
                Some(index) => match parse_index(index.as_str()) {
                    Ok(i) => self.delete_at(i),
                    Err(e) => Err(e),
                },
                None => Err(Failure::Validation),
            },
        }
    }
}

/// A request that waits for the accounts.
pub struct Guard {
    request: Request,
}

/// A request that waits for the list. It remembers the accounts against
/// which its credentials were judged, if they were.
pub struct Loader {
    request: Request,
    judged: Ghost<Option<Seq<(Seq<char>, Seq<char>)>>>,
}

/// A request whose changed list is being written.
pub struct Pending {
    body: String,
}

/// Where a request stands after its fields were looked at.
pub enum Begun {
    /// The accounts are needed next.
    Accounts(Guard),
    /// The list is needed next.
    List(Loader),
    /// The request is over.
    Done(Reply),
}

/// Where a request stands after its credentials were judged.
pub enum Guarded {
    /// The list is needed next.
    List(Loader),
    /// The request is over.
    Done(Reply),
}

/// Where a request stands after the list was loaded.
pub enum Loaded {
    /// The write is to be performed next.
    Write(StoreWrite, Pending),
    /// The request is over.
    Done(Reply),
}

/// Takes up a request. The store has not been touched.
pub fn begin(request: Request) -> (next: Begun)
    ensures
        match next {
            Begun::List(loader) => !request.operation.is_guarded() && loader.request() == request
                && loader.judged() is None,
            Begun::Accounts(guard) => request.operation.is_guarded()
                && request.credentials.username is Some && request.credentials.password is Some
                && guard.request() == request,
            Begun::Done(reply) => request.operation.is_guarded() && !(
            request.credentials.username is Some && request.credentials.password is Some)
                && reply == Err::<String, Failure>(Failure::Auth(AuthError::InvalidParameter)),
        },
{
    let guarded = match request.operation {
        Operation::ListItems => false,
        _ => true,
    };
    if !guarded {
        Begun::List(Loader { request, judged: Ghost(None) })
    } else if request.credentials.is_complete() {
        Begun::Accounts(Guard { request })
    } else {
        Begun::Done(Err(Failure::Auth(AuthError::InvalidParameter)))
    }
}

impl Guard {
    /// The request that waits.
    pub closed spec fn request(self) -> Request {
        self.request
    }

    /// Goes on with the accounts as they were read.
    ///
    /// Accounts that could not be had end the request with the failure of
    /// the read. Otherwise the verdict decides. With credentials that pass,
    /// a check of credentials is over, with an empty text; any other request
    /// needs all its fields, and then the list.
    pub fn accounts(self, fetched: Fetched<Accounts>) -> (next: Guarded)
        ensures
            match fetched {
                Fetched::Absent => next == Guarded::Done(Err(Failure::NotFound)),
                Fetched::Malformed => next == Guarded::Done(Err(Failure::Decode)),
                Fetched::Unreachable => next == Guarded::Done(Err(Failure::StoreRead)),
                Fetched::Found(accounts) => match verdict(
                    self.request().credentials.username_field(),
                    self.request().credentials.password_field(),
                    accounts@,
                ) {
                    AuthState::Failed(reason) => next == Guarded::Done(Err(Failure::Auth(reason))),
                    AuthState::Passed => if !self.request().operation.needs_list() {
                        next matches Guarded::Done(Ok(body)) && body@ == Seq::<char>::empty()
                    } else if !self.request().operation.has_fields() {
                        next == Guarded::Done(Err(Failure::Validation))
                    } else {
                        next matches Guarded::List(loader) && loader.request() == self.request()
                            && loader.judged() == Some(accounts@)
                    },
                },
            },
    {
        let accounts = match fetched.into_result() {
            Ok(accounts) => accounts,
            Err(e) => {
                return Guarded::Done(Err(e));
            },
        };
        let judged = Ghost(Some(accounts@));
        match self.request.credentials.auth(&accounts) {
            AuthState::Failed(reason) => Guarded::Done(Err(Failure::Auth(reason))),
            AuthState::Passed => {
                let over = match self.request.operation {
                    Operation::CheckCredentials => true,
                    _ => false,
                };
                if over {
                    Guarded::Done(Ok(String::new()))
                } else if !self.request.operation.check_fields() {
                    Guarded::Done(Err(Failure::Validation))
                } else {
                    Guarded::List(Loader { request: self.request, judged })
                }
            },
        }
    }
}

impl Loader {
    #[verifier::type_invariant]
    spec fn reached_rightly(self) -> bool {
        self.request.operation.is_guarded() ==> self.passed()
            && self.request.operation.has_fields()
    }

    /// The request that waits.
    pub closed spec fn request(self) -> Request {
        self.request
    }

    /// The accounts against which the credentials were judged, if they
    /// were.
    pub closed spec fn judged(self) -> Option<Seq<(Seq<char>, Seq<char>)>> {
        self.judged@
    }

    /// Whether the credentials of the request were judged and passed.
    pub open spec fn passed(self) -> bool {
        self.judged() matches Some(accounts) && verdict(
            self.request().credentials.username_field(),
            self.request().credentials.password_field(),
            accounts,
        ) == AuthState::Passed
    }

    /// Goes on with the list as it was read.
    ///
    /// A list that could not be had ends the request with the failure of the
    /// read, and so does an operation that cannot be carried out on the
    /// list. Showing the list ends with its record. Any other operation asks
    /// for the record of the changed list to be written under the list's
    /// key. A request that changes the list got here with credentials that
    /// passed and with all its fields.
    pub fn list(self, fetched: Fetched<Vec<String>>) -> (next: Loaded)
        ensures
            self.request().operation.is_guarded() ==> self.passed()
                && self.request().operation.has_fields(),
            match fetched {
                Fetched::Absent => next == Loaded::Done(Err(Failure::NotFound)),
                Fetched::Malformed => next == Loaded::Done(Err(Failure::Decode)),
                Fetched::Unreachable => next == Loaded::Done(Err(Failure::StoreRead)),
                Fetched::Found(items) => match self.request().operation.applied(
                    items.deep_view(),
                ) {
                    Err(e) => next == Loaded::Done(Err(e)),
                    Ok(changed) => if self.request().operation.is_guarded() {
                        next matches Loaded::Write(write, pending) && write.key@ == LIST_KEY@
                            && write.value@ == list_document(changed) && pending.body()
                            == list_document(changed)
                    } else {
                        next matches Loaded::Done(Ok(body)) && body@ == list_document(changed)
                    },
                },
            },
    {
        proof {
            use_type_invariant(&self);
        }
        let mut list = match ListManager::new(fetched) {
            Ok(list) => list,
            Err(e) => {
                return Loaded::Done(Err(e));
            },
        };
        let guarded = match self.request.operation {
            Operation::ListItems => false,
            _ => true,
        };
        match list.apply(self.request.operation) {
            Ok(()) => {},
            Err(e) => {
                return Loaded::Done(Err(e));
            },
        }
        if guarded {
            match list.update() {
                Ok(write) => {
                    let body = write.value.clone();
                    Loaded::Write(write, Pending { body })
                },
                Err(e) => Loaded::Done(Err(e)),
            }
        } else {
            Loaded::Done(list.end_with_response())
        }
    }
}

impl Pending {
    /// The text that is shown once the write is through.
    pub closed spec fn body(self) -> Seq<char> {
        self.body@
    }

    /// Ends the request after the write: with the record that was written,
    /// or as a write failure.
    pub fn written(self, done: bool) -> (reply: Reply)
        ensures
            done ==> (reply matches Ok(body) && body@ == self.body()),
            !done ==> reply == Err::<String, Failure>(Failure::StoreWrite),
    {
        if done {
            Ok(self.body)
        } else {
            Err(Failure::StoreWrite)
        }
    }
}

} // verus!
