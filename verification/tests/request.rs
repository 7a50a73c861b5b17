use emoji_list::acct::{Account, Accounts};
use emoji_list::auth::Credentials;
use emoji_list::failure::{AuthError, Failure};
use emoji_list::list::ListManager;
use emoji_list::request::{begin, Begun, Guarded, Loaded, Operation, Reply, Request};
use emoji_list::store::{Fetched, StoreWrite};

fn text(s: &str) -> Option<String> {
    Some(s.to_string())
}

fn strings(items: &[&str]) -> Vec<String> {
    items.iter().map(|s| s.to_string()).collect()
}

fn accounts() -> Accounts {
    Accounts {
        value: vec![
            Account { username: "alice".to_string(), password: "p1".to_string() },
            Account { username: "bob".to_string(), password: "p2".to_string() },
        ],
    }
}

fn alice() -> Credentials {
    Credentials { username: text("alice"), password: text("p1") }
}

fn nobody() -> Credentials {
    Credentials { username: None, password: None }
}

/// What a run against a store with the given records ends in, and what it
/// asked to be written on the way.
fn run(
    request: Request,
    stored_accounts: Fetched<Accounts>,
    stored_list: Fetched<Vec<String>>,
    write_succeeds: bool,
) -> (Reply, Vec<&'static str>, Option<StoreWrite>) {
    let mut touched = Vec::new();
    let loader = match begin(request) {
        Begun::Done(reply) => return (reply, touched, None),
        Begun::List(loader) => loader,
        Begun::Accounts(guard) => {
            touched.push("accounts");
            match guard.accounts(stored_accounts) {
                Guarded::Done(reply) => return (reply, touched, None),
                Guarded::List(loader) => loader,
            }
        }
    };
    touched.push("list");
    match loader.list(stored_list) {
        Loaded::Done(reply) => (reply, touched, None),
        Loaded::Write(write, pending) => {
            touched.push("write");
            (pending.written(write_succeeds), touched, Some(write))
        }
    }
}

fn run_on(request: Request, items: &[&str]) -> (Reply, Vec<&'static str>, Option<StoreWrite>) {
    run(request, Fetched::Found(accounts()), Fetched::Found(strings(items)), true)
}

#[test]
fn listing_needs_no_credentials_and_reads_only_the_list() {
    let request = Request { operation: Operation::ListItems, credentials: nobody() };
    let (reply, touched, write) = run_on(request, &["a", "b"]);
    assert_eq!(reply, Ok("{\"value\":[\"a\",\"b\"]}".to_string()));
    assert_eq!(touched, vec!["list"]);
    assert_eq!(write, None);
}

#[test]
fn listing_ignores_credentials_that_would_fail() {
    let request = Request {
        operation: Operation::ListItems,
        credentials: Credentials { username: text("eve"), password: text("x") },
    };
    let (reply, touched, _) = run_on(request, &[]);
    assert_eq!(reply, Ok("{\"value\":[]}".to_string()));
    assert_eq!(touched, vec!["list"]);
}

#[test]
fn listing_fails_with_the_failure_of_the_read() {
    for (stored, failure) in [
        (Fetched::Absent, Failure::NotFound),
        (Fetched::Malformed, Failure::Decode),
        (Fetched::Unreachable, Failure::StoreRead),
    ] {
        let request = Request { operation: Operation::ListItems, credentials: nobody() };
        let (reply, touched, write) = run(request, Fetched::Found(accounts()), stored, true);
        assert_eq!(reply, Err(failure));
        assert_eq!(touched, vec!["list"]);
        assert_eq!(write, None);
    }
}

#[test]
fn a_check_of_credentials_ends_with_an_empty_text() {
    let request = Request { operation: Operation::CheckCredentials, credentials: alice() };
    let (reply, touched, write) = run_on(request, &["a"]);
    assert_eq!(reply, Ok(String::new()));
    assert_eq!(touched, vec!["accounts"]);
    assert_eq!(write, None);
}

#[test]
fn a_check_of_credentials_reports_each_reason() {
    let cases = [
        (Credentials { username: text("alice"), password: text("wrong") }, AuthError::InvalidPassword),
        (Credentials { username: text("eve"), password: text("x") }, AuthError::InvalidUsername),
    ];
    for (credentials, reason) in cases {
        let request = Request { operation: Operation::CheckCredentials, credentials };
        let (reply, touched, _) = run_on(request, &["a"]);
        assert_eq!(reply, Err(Failure::Auth(reason)));
        assert_eq!(touched, vec!["accounts"]);
    }
}

#[test]
fn a_missing_credential_ends_the_request_before_the_store_is_read() {
    let operations = [
        Operation::CheckCredentials,
        Operation::AppendItem { content: text("x") },
        Operation::MoveItem { from: text("0"), to: text("1") },
        Operation::DeleteItem { index: text("0") },
    ];
    for operation in operations {
        for credentials in [
            nobody(),
            Credentials { username: text("alice"), password: None },
            Credentials { username: None, password: text("p1") },
        ] {
            let request = Request { operation: operation.clone(), credentials };
            let (reply, touched, write) = run_on(request, &["a", "b"]);
            assert_eq!(reply, Err(Failure::Auth(AuthError::InvalidParameter)));
            assert!(touched.is_empty());
            assert_eq!(write, None);
        }
    }
}

#[test]
fn refused_credentials_end_the_request_before_the_list_is_read() {
    let operations = [
        Operation::AppendItem { content: text("x") },
        Operation::MoveItem { from: text("0"), to: text("1") },
        Operation::DeleteItem { index: text("0") },
    ];
    for operation in operations {
        let request = Request {
            operation,
            credentials: Credentials { username: text("alice"), password: text("wrong") },
        };
        let (reply, touched, write) = run_on(request, &["a", "b"]);
        assert_eq!(reply, Err(Failure::Auth(AuthError::InvalidPassword)));
        assert_eq!(touched, vec!["accounts"]);
        assert_eq!(write, None);
    }
}

#[test]
fn accounts_that_cannot_be_had_end_the_request() {
    for (stored, failure) in [
        (Fetched::Absent, Failure::NotFound),
        (Fetched::Malformed, Failure::Decode),
        (Fetched::Unreachable, Failure::StoreRead),
    ] {
        let request =
            Request { operation: Operation::AppendItem { content: text("x") }, credentials: alice() };
        let (reply, touched, write) = run(request, stored, Fetched::Found(strings(&["a"])), true);
        assert_eq!(reply, Err(failure));
        assert_eq!(touched, vec!["accounts"]);
        assert_eq!(write, None);
    }
}

#[test]
fn a_missing_field_is_reported_after_the_credentials_and_before_the_list() {
    let operations = [
        Operation::AppendItem { content: None },
        Operation::MoveItem { from: None, to: text("1") },
        Operation::MoveItem { from: text("0"), to: None },
        Operation::MoveItem { from: None, to: None },
        Operation::DeleteItem { index: None },
    ];
    for operation in operations {
        let request = Request { operation: operation.clone(), credentials: alice() };
        let (reply, touched, write) = run_on(request, &["a", "b"]);
        assert_eq!(reply, Err(Failure::Validation));
        assert_eq!(touched, vec!["accounts"]);
        assert_eq!(write, None);

        let request = Request {
            operation,
            credentials: Credentials { username: text("eve"), password: text("x") },
        };
        let (reply, _, _) = run_on(request, &["a", "b"]);
        assert_eq!(reply, Err(Failure::Auth(AuthError::InvalidUsername)));
    }
}

#[test]
fn appending_writes_the_longer_list_and_shows_it() {
    let request =
        Request { operation: Operation::AppendItem { content: text("c") }, credentials: alice() };
    let (reply, touched, write) = run_on(request, &["a", "b"]);
    let record = "{\"value\":[\"a\",\"b\",\"c\"]}".to_string();
    assert_eq!(reply, Ok(record.clone()));
    assert_eq!(touched, vec!["accounts", "list", "write"]);
    assert_eq!(write, Some(StoreWrite { key: "list".to_string(), value: record }));
}

#[test]
fn appending_an_empty_text_is_allowed() {
    let request =
        Request { operation: Operation::AppendItem { content: text("") }, credentials: alice() };
    let (reply, _, _) = run_on(request, &[]);
    assert_eq!(reply, Ok("{\"value\":[\"\"]}".to_string()));
}

#[test]
fn moving_writes_the_reordered_list() {
    let request = Request {
        operation: Operation::MoveItem { from: text("0"), to: text("2") },
        credentials: alice(),
    };
    let (reply, touched, write) = run_on(request, &["a", "b", "c", "d"]);
    let record = "{\"value\":[\"b\",\"c\",\"a\",\"d\"]}".to_string();
    assert_eq!(reply, Ok(record.clone()));
    assert_eq!(touched, vec!["accounts", "list", "write"]);
    assert_eq!(write.unwrap().value, record);
}

#[test]
fn moving_with_an_index_that_is_no_numeral_is_a_parse_failure() {
    for (from, to) in [("x", "1"), ("0", "y"), ("", "1"), ("-1", "0"), ("0", "1.0"), ("a", "b")] {
        let request = Request {
            operation: Operation::MoveItem { from: text(from), to: text(to) },
            credentials: alice(),
        };
        let (reply, touched, write) = run_on(request, &["a", "b"]);
        assert_eq!(reply, Err(Failure::Parse));
        assert_eq!(touched, vec!["accounts", "list"]);
        assert_eq!(write, None);
    }
}

#[test]
fn moving_reports_a_bad_numeral_before_an_index_out_of_range() {
    let request = Request {
        operation: Operation::MoveItem { from: text("99"), to: text("x") },
        credentials: alice(),
    };
    let (reply, _, _) = run_on(request, &["a", "b"]);
    assert_eq!(reply, Err(Failure::Parse));
}

#[test]
fn moving_out_of_range_writes_nothing() {
    for (from, to) in [("2", "0"), ("0", "2"), ("5", "7"), ("18446744073709551615", "0")] {
        let request = Request {
            operation: Operation::MoveItem { from: text(from), to: text(to) },
            credentials: alice(),
        };
        let (reply, touched, write) = run_on(request, &["a", "b"]);
        assert_eq!(reply, Err(Failure::IndexOutOfRange));
        assert_eq!(touched, vec!["accounts", "list"]);
        assert_eq!(write, None);
    }
}

#[test]
fn deleting_writes_the_shorter_list() {
    let request =
        Request { operation: Operation::DeleteItem { index: text("1") }, credentials: alice() };
    let (reply, touched, write) = run_on(request, &["a", "b", "c"]);
    let record = "{\"value\":[\"a\",\"c\"]}".to_string();
    assert_eq!(reply, Ok(record.clone()));
    assert_eq!(touched, vec!["accounts", "list", "write"]);
    assert_eq!(write.unwrap().value, record);
}

#[test]
fn deleting_with_a_bad_index_fails_and_writes_nothing() {
    for (index, failure) in [
        ("x", Failure::Parse),
        ("", Failure::Parse),
        ("-1", Failure::Parse),
        ("3", Failure::IndexOutOfRange),
        ("99999999999999999999999999", Failure::Parse),
    ] {
        let request =
            Request { operation: Operation::DeleteItem { index: text(index) }, credentials: alice() };
        let (reply, touched, write) = run_on(request, &["a", "b", "c"]);
        assert_eq!(reply, Err(failure));
        assert_eq!(touched, vec!["accounts", "list"]);
        assert_eq!(write, None);
    }
}

#[test]
fn a_list_that_cannot_be_had_ends_a_change() {
    for (stored, failure) in [
        (Fetched::Absent, Failure::NotFound),
        (Fetched::Malformed, Failure::Decode),
        (Fetched::Unreachable, Failure::StoreRead),
    ] {
        let request =
            Request { operation: Operation::AppendItem { content: text("x") }, credentials: alice() };
        let (reply, touched, write) = run(request, Fetched::Found(accounts()), stored, true);
        assert_eq!(reply, Err(failure));
        assert_eq!(touched, vec!["accounts", "list"]);
        assert_eq!(write, None);
    }
}

#[test]
fn a_failed_write_ends_the_request_as_write_failure() {
    let request =
        Request { operation: Operation::AppendItem { content: text("c") }, credentials: alice() };
    let (reply, touched, write) =
        run(request, Fetched::Found(accounts()), Fetched::Found(strings(&["a"])), false);
    assert_eq!(reply, Err(Failure::StoreWrite));
    assert_eq!(touched, vec!["accounts", "list", "write"]);
    assert_eq!(write.unwrap().value, "{\"value\":[\"a\",\"c\"]}");
}

#[test]
fn apply_carries_out_each_operation() {
    let mut list = ListManager { mut_value: strings(&["a", "b", "c"]) };
    assert_eq!(list.apply(Operation::ListItems), Ok(()));
    assert_eq!(list.apply(Operation::CheckCredentials), Ok(()));
    assert_eq!(list.mut_value, strings(&["a", "b", "c"]));
    assert_eq!(list.apply(Operation::AppendItem { content: text("d") }), Ok(()));
    assert_eq!(list.mut_value, strings(&["a", "b", "c", "d"]));
    assert_eq!(list.apply(Operation::MoveItem { from: text("3"), to: text("0") }), Ok(()));
    assert_eq!(list.mut_value, strings(&["d", "a", "b", "c"]));
    assert_eq!(list.apply(Operation::DeleteItem { index: text("+1") }), Ok(()));
    assert_eq!(list.mut_value, strings(&["d", "b", "c"]));
}

#[test]
fn apply_leaves_the_list_alone_where_it_fails() {
    let operations = [
        (Operation::AppendItem { content: None }, Failure::Validation),
        (Operation::MoveItem { from: None, to: text("0") }, Failure::Validation),
        (Operation::MoveItem { from: text("0"), to: None }, Failure::Validation),
        (Operation::MoveItem { from: text("zero"), to: text("0") }, Failure::Parse),
        (Operation::MoveItem { from: text("0"), to: text("3") }, Failure::IndexOutOfRange),
        (Operation::DeleteItem { index: None }, Failure::Validation),
        (Operation::DeleteItem { index: text("one") }, Failure::Parse),
        (Operation::DeleteItem { index: text("3") }, Failure::IndexOutOfRange),
    ];
    for (operation, failure) in operations {
        let mut list = ListManager { mut_value: strings(&["a", "b", "c"]) };
        assert_eq!(list.apply(operation), Err(failure));
        assert_eq!(list.mut_value, strings(&["a", "b", "c"]));
    }
}

#[test]
fn check_fields_tells_whether_a_field_is_missing() {
    assert!(Operation::ListItems.check_fields());
    assert!(Operation::CheckCredentials.check_fields());
    assert!(Operation::AppendItem { content: text("") }.check_fields());
    assert!(!Operation::AppendItem { content: None }.check_fields());
    assert!(Operation::MoveItem { from: text("a"), to: text("b") }.check_fields());
    assert!(!Operation::MoveItem { from: None, to: text("b") }.check_fields());
    assert!(!Operation::MoveItem { from: text("a"), to: None }.check_fields());
    assert!(Operation::DeleteItem { index: text("x") }.check_fields());
    assert!(!Operation::DeleteItem { index: None }.check_fields());
}

#[test]
fn end_with_response_shows_the_record() {
    let list = ListManager { mut_value: strings(&["a", "b"]) };
    assert_eq!(list.end_with_response(), Ok("{\"value\":[\"a\",\"b\"]}".to_string()));
    assert_eq!(list.end_with_response(), list.get_str());
}
