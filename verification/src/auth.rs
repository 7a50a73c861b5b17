//! The credential check: every request that changes the list passes it first.

use vstd::prelude::*;
use crate::acct::{first_with, is_first_with, knows, unique_usernames, Accounts};
use crate::failure::AuthError;

verus! {

/// The verdict on credentials. There is no third state: a request passes, or it
/// is turned away for one reason.
#[derive(Clone, Copy, Debug, PartialEq, Eq, Structural)]
pub enum AuthState {
    /// The credentials belong to an account.
    Passed,
    /// The request is turned away, for this reason.
    Failed(AuthError),
}

/// The two credential fields of a request. A field is `None` where the
/// request did not carry it, or carried something other than plain text.
#[derive(Clone, Debug, PartialEq, Eq)]
pub struct Credentials {
    pub username: Option<String>,
    pub password: Option<String>,
}

/// The verdict on the two fields against the accounts.
///
/// A missing field is an invalid parameter, whatever the accounts hold.
/// Otherwise the first account with the username decides: without one the
/// username is invalid; with one, the password must equal that account's.
/// Both comparisons are exact.
pub open spec fn verdict(
    username: Option<Seq<char>>,
    password: Option<Seq<char>>,
    accounts: Seq<(Seq<char>, Seq<char>)>,
) -> AuthState {
    match (username, password) {
        (Some(u), Some(p)) => {
            if !knows(accounts, u) {
                AuthState::Failed(AuthError::InvalidUsername)
            } else if accounts[first_with(accounts, u)].1 == p {
                AuthState::Passed
            } else {
                AuthState::Failed(AuthError::InvalidPassword)
            }
        },
        _ => AuthState::Failed(AuthError::InvalidParameter),
    }
}

/// The view of an optional text field.
pub open spec fn field_view(field: Option<String>) -> Option<Seq<char>> {
    match field {
        Some(text) => Some(text@),
        None => None,
    }
}

/// The first account with a given username is determined by the accounts.
proof fn lemma_first_is_unique(
    accounts: Seq<(Seq<char>, Seq<char>)>,
    username: Seq<char>,
    i: int,
)
    requires
        is_first_with(accounts, username, i),
    ensures
        knows(accounts, username),
        first_with(accounts, username) == i,
{
    let k = first_with(accounts, username);
    assert(is_first_with(accounts, username, k));
    if k < i {
        assert(accounts[k].0 != username);
    } else if i < k {
        assert(accounts[i].0 != username);
    }
}

/// Checks a username and a password against the accounts.
pub fn check(username: Option<&String>, password: Option<&String>, accounts: &Accounts) -> (state:
    AuthState)
    ensures
        state == verdict(
            match username {
                Some(u) => Some(u@),
                None => None,
            },
            match password {
                Some(p) => Some(p@),
                None => None,
            },
            accounts@,
        ),
{
    match (username, password) {
        (Some(u), Some(p)) => {
            match accounts.find(u) {
                Some(i) => {
                    proof {
                        lemma_first_is_unique(accounts@, u@, i as int);
                    }
                    if accounts.value[i].password == *p {
                        AuthState::Passed
                    } else {
                        AuthState::Failed(AuthError::InvalidPassword)
                    }
                },
                None => AuthState::Failed(AuthError::InvalidUsername),
            }
        },
        _ => AuthState::Failed(AuthError::InvalidParameter),
    }
}

/// What carries credentials that can be judged.
pub trait Auth {
    /// The username that was supplied, if one was.
    spec fn username_field(&self) -> Option<Seq<char>>;

    /// The password that was supplied, if one was.
    spec fn password_field(&self) -> Option<Seq<char>>;

    /// The verdict on what was supplied.
    fn auth(&self, accounts: &Accounts) -> (state: AuthState)
        ensures
            state == verdict(self.username_field(), self.password_field(), accounts@),
    ;
}

impl Auth for Credentials {
    open spec fn username_field(&self) -> Option<Seq<char>> {
        field_view(self.username)
    }

    open spec fn password_field(&self) -> Option<Seq<char>> {
        field_view(self.password)
    }

    fn auth(&self, accounts: &Accounts) -> (state: AuthState) {
        check(self.username.as_ref(), self.password.as_ref(), accounts)
    }
}

impl Credentials {
    /// Whether both fields are there. Where one is missing the verdict is
    /// known without the accounts, and the store need not be read.
    pub fn is_complete(&self) -> (complete: bool)
        ensures
            complete == (self.username is Some && self.password is Some),
            !complete ==> forall|accounts: Seq<(Seq<char>, Seq<char>)>|
                #[trigger] verdict(self.username_field(), self.password_field(), accounts)
                    == AuthState::Failed(AuthError::InvalidParameter),
    {
        self.username.is_some() && self.password.is_some()
    }
}

/// Only a pair that the accounts hold passes.
pub proof fn lemma_ok_means_listed(
    username: Option<Seq<char>>,
    password: Option<Seq<char>>,
    accounts: Seq<(Seq<char>, Seq<char>)>,
)
    requires
        verdict(username, password, accounts) == AuthState::Passed,
    ensures
        username is Some,
        password is Some,
        accounts.contains((username->0, password->0)),
{
    let u = username->0;
    let i = first_with(accounts, u);
    let k = choose|k: int| 0 <= k < accounts.len() && (#[trigger] accounts[k]).0 == u;
    lemma_some_first(accounts, u, k);
    assert(is_first_with(accounts, u, i));
    assert(accounts[i] == (u, password->0));
}

/// Where an account carries the username, there is a first such account.
proof fn lemma_some_first(accounts: Seq<(Seq<char>, Seq<char>)>, username: Seq<char>, k: int)
    requires
        0 <= k < accounts.len(),
        accounts[k].0 == username,
    ensures
        exists|i: int| is_first_with(accounts, username, i),
    decreases k,
{
    if exists|j: int| 0 <= j < k && (#[trigger] accounts[j]).0 == username {
        let j = choose|j: int| 0 <= j < k && (#[trigger] accounts[j]).0 == username;
        lemma_some_first(accounts, username, j);
    } else {
        assert(is_first_with(accounts, username, k));
    }
}

/// Where no username occurs twice, exactly the pairs that the accounts hold
/// pass.
pub proof fn lemma_ok_iff_listed(
    username: Seq<char>,
    password: Seq<char>,
    accounts: Seq<(Seq<char>, Seq<char>)>,
)
    requires
        unique_usernames(accounts),
    ensures
        verdict(Some(username), Some(password), accounts) == AuthState::Passed <==> accounts.contains(
            (username, password),
        ),
{
    if verdict(Some(username), Some(password), accounts) == AuthState::Passed {
        lemma_ok_means_listed(Some(username), Some(password), accounts);
    }
    if accounts.contains((username, password)) {
        let k = choose|k: int| 0 <= k < accounts.len() && accounts[k] == (username, password);
        lemma_some_first(accounts, username, k);
        let i = first_with(accounts, username);
        assert(is_first_with(accounts, username, i));
        if i < k {
            assert(accounts[i].0 != accounts[k].0);
        } else if k < i {
            assert(accounts[k].0 != accounts[i].0);
        }
    }
}

} // verus!
