//! The accounts against which credentials are checked.

use vstd::prelude::*;

verus! {

/// One account. Both parts are opaque text, compared exactly.
#[derive(Clone, Debug, PartialEq, Eq)]
pub struct Account {
    pub username: String,
    pub password: String,
}

/// The stored record of all accounts.
#[derive(Clone, Debug, PartialEq, Eq)]
pub struct Accounts {
    pub value: Vec<Account>,
}

impl View for Account {
    /// The username and the password.
    type V = (Seq<char>, Seq<char>);

    open spec fn view(&self) -> (Seq<char>, Seq<char>) {
        (self.username@, self.password@)
    }
}

impl View for Accounts {
    type V = Seq<(Seq<char>, Seq<char>)>;

    open spec fn view(&self) -> Seq<(Seq<char>, Seq<char>)> {
        Seq::new(self.value@.len(), |i: int| self.value@[i]@)
    }
}

/// Whether no username occurs twice.
pub open spec fn unique_usernames(accounts: Seq<(Seq<char>, Seq<char>)>) -> bool {
    forall|i: int, j: int|
        0 <= i < j < accounts.len() ==> (#[trigger] accounts[i]).0 != (#[trigger] accounts[j]).0
}

/// Whether some account carries `username`.
pub open spec fn knows(accounts: Seq<(Seq<char>, Seq<char>)>, username: Seq<char>) -> bool {
    exists|i: int| 0 <= i < accounts.len() && (#[trigger] accounts[i]).0 == username
}

/// Whether `i` is the position of the first account that carries `username`.
pub open spec fn is_first_with(
    accounts: Seq<(Seq<char>, Seq<char>)>,
    username: Seq<char>,
    i: int,
) -> bool {
    &&& 0 <= i < accounts.len()
    &&& accounts[i].0 == username
    &&& forall|j: int| 0 <= j < i ==> (#[trigger] accounts[j]).0 != username
}

/// The position of the first account that carries `username`, where there is
/// one.
pub open spec fn first_with(accounts: Seq<(Seq<char>, Seq<char>)>, username: Seq<char>) -> int {
    choose|i: int| is_first_with(accounts, username, i)
}

impl Accounts {
    /// Whether the record is a set of accounts: no username occurs twice.
    pub open spec fn wf(&self) -> bool {
        unique_usernames(self@)
    }

    /// Looks for the first account that carries `username`.
    pub fn find(&self, username: &String) -> (found: Option<usize>)
        ensures
            match found {
                Some(i) => is_first_with(self@, username@, i as int),
                None => !knows(self@, username@),
            },
    {
        let mut i: usize = 0;
        while i < self.value.len()
            invariant
                i <= self.value@.len(),
                forall|j: int| 0 <= j < i ==> (#[trigger] self@[j]).0 != username@,
            decreases self.value@.len() - i,
        {
            if self.value[i].username == *username {
                return Some(i);
            }
            i = i + 1;
        }
        None
    }
}

} // verus!
