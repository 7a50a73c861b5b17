use emoji_list::acct::{Account, Accounts};
use emoji_list::auth::{check, Auth, AuthState, Credentials};
use emoji_list::failure::AuthError;

fn account(username: &str, password: &str) -> Account {
    Account { username: username.to_string(), password: password.to_string() }
}

fn alice_and_bob() -> Accounts {
    Accounts { value: vec![account("alice", "p1"), account("bob", "p2")] }
}

fn judge(username: Option<&str>, password: Option<&str>, accounts: &Accounts) -> AuthState {
    let username = username.map(|s| s.to_string());
    let password = password.map(|s| s.to_string());
    check(username.as_ref(), password.as_ref(), accounts)
}

#[test]
fn check_passes_a_listed_pair() {
    assert_eq!(judge(Some("alice"), Some("p1"), &alice_and_bob()), AuthState::Passed);
    assert_eq!(judge(Some("bob"), Some("p2"), &alice_and_bob()), AuthState::Passed);
}

#[test]
fn check_fails_a_wrong_password() {
    assert_eq!(
        judge(Some("alice"), Some("wrong"), &alice_and_bob()),
        AuthState::Failed(AuthError::InvalidPassword)
    );
}

#[test]
fn check_fails_the_password_of_another_account() {
    assert_eq!(
        judge(Some("alice"), Some("p2"), &alice_and_bob()),
        AuthState::Failed(AuthError::InvalidPassword)
    );
}

#[test]
fn check_fails_an_unknown_username() {
    assert_eq!(
        judge(Some("eve"), Some("x"), &alice_and_bob()),
        AuthState::Failed(AuthError::InvalidUsername)
    );
}

#[test]
fn check_fails_an_unknown_username_with_a_listed_password() {
    assert_eq!(
        judge(Some("eve"), Some("p1"), &alice_and_bob()),
        AuthState::Failed(AuthError::InvalidUsername)
    );
}

#[test]
fn check_fails_a_missing_password() {
    assert_eq!(
        judge(Some("alice"), None, &alice_and_bob()),
        AuthState::Failed(AuthError::InvalidParameter)
    );
}

#[test]
fn check_fails_a_missing_username() {
    assert_eq!(
        judge(None, Some("p1"), &alice_and_bob()),
        AuthState::Failed(AuthError::InvalidParameter)
    );
    assert_eq!(judge(None, None, &alice_and_bob()), AuthState::Failed(AuthError::InvalidParameter));
}

#[test]
fn check_reports_a_missing_field_before_an_unknown_username() {
    assert_eq!(
        judge(Some("eve"), None, &alice_and_bob()),
        AuthState::Failed(AuthError::InvalidParameter)
    );
}

#[test]
fn check_compares_exactly() {
    let accounts = Accounts { value: vec![account("carol", "secret")] };
    assert_eq!(judge(Some("carol"), Some("secret"), &accounts), AuthState::Passed);
    assert_eq!(
        judge(Some("Carol"), Some("secret"), &accounts),
        AuthState::Failed(AuthError::InvalidUsername)
    );
    assert_eq!(
        judge(Some("carol "), Some("secret"), &accounts),
        AuthState::Failed(AuthError::InvalidUsername)
    );
    assert_eq!(
        judge(Some("carol"), Some("SECRET"), &accounts),
        AuthState::Failed(AuthError::InvalidPassword)
    );
    assert_eq!(
        judge(Some("carol"), Some("secret "), &accounts),
        AuthState::Failed(AuthError::InvalidPassword)
    );
    assert_eq!(judge(Some(""), Some(""), &accounts), AuthState::Failed(AuthError::InvalidUsername));
}

#[test]
fn check_against_no_accounts() {
    let nobody = Accounts { value: Vec::new() };
    assert_eq!(
        judge(Some("alice"), Some("p1"), &nobody),
        AuthState::Failed(AuthError::InvalidUsername)
    );
    assert_eq!(judge(None, Some("p1"), &nobody), AuthState::Failed(AuthError::InvalidParameter));
}

#[test]
fn check_accepts_empty_texts_that_are_listed() {
    let accounts = Accounts { value: vec![account("", "")] };
    assert_eq!(judge(Some(""), Some(""), &accounts), AuthState::Passed);
    assert_eq!(
        judge(Some(""), Some("x"), &accounts),
        AuthState::Failed(AuthError::InvalidPassword)
    );
}

#[test]
fn check_lets_the_first_account_with_the_username_decide() {
    let accounts = Accounts { value: vec![account("alice", "p1"), account("alice", "p9")] };
    assert_eq!(judge(Some("alice"), Some("p1"), &accounts), AuthState::Passed);
    assert_eq!(
        judge(Some("alice"), Some("p9"), &accounts),
        AuthState::Failed(AuthError::InvalidPassword)
    );
}

#[test]
fn find_gives_the_first_position_of_a_username() {
    let accounts =
        Accounts { value: vec![account("alice", "p1"), account("bob", "p2"), account("bob", "p3")] };
    assert_eq!(accounts.find(&"alice".to_string()), Some(0));
    assert_eq!(accounts.find(&"bob".to_string()), Some(1));
    assert_eq!(accounts.find(&"eve".to_string()), None);
}

#[test]
fn credentials_are_judged_like_their_fields() {
    let accounts = alice_and_bob();
    let cases = [
        (Some("alice"), Some("p1")),
        (Some("alice"), Some("wrong")),
        (Some("eve"), Some("x")),
        (Some("alice"), None),
        (None, Some("p1")),
        (None, None),
    ];
    for (username, password) in cases {
        let credentials = Credentials {
            username: username.map(|s| s.to_string()),
            password: password.map(|s| s.to_string()),
        };
        assert_eq!(credentials.auth(&accounts), judge(username, password, &accounts));
    }
}

#[test]
fn credentials_are_complete_with_both_fields() {
    let with = |username: Option<&str>, password: Option<&str>| Credentials {
        username: username.map(|s| s.to_string()),
        password: password.map(|s| s.to_string()),
    };
    assert!(with(Some("a"), Some("b")).is_complete());
    assert!(with(Some(""), Some("")).is_complete());
    assert!(!with(Some("a"), None).is_complete());
    assert!(!with(None, Some("b")).is_complete());
    assert!(!with(None, None).is_complete());
}

#[test]
fn with_unique_usernames_exactly_the_listed_pairs_pass() {
    let accounts = alice_and_bob();
    for username in ["alice", "bob", "eve", ""] {
        for password in ["p1", "p2", "x", ""] {
            let listed = accounts
                .value
                .iter()
                .any(|a| a.username == username && a.password == password);
            let passed = judge(Some(username), Some(password), &accounts) == AuthState::Passed;
            assert_eq!(passed, listed, "{:?} {:?}", username, password);
        }
    }
}
