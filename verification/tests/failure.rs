use emoji_list::failure::{AuthError, Failure, FailureClass};

#[test]
fn request_failures_are_the_clients() {
    assert_eq!(Failure::Validation.class(), FailureClass::Client);
    assert_eq!(Failure::Parse.class(), FailureClass::Client);
    assert_eq!(Failure::IndexOutOfRange.class(), FailureClass::Client);
}

#[test]
fn refused_credentials_are_unauthorized() {
    for reason in
        [AuthError::InvalidParameter, AuthError::InvalidUsername, AuthError::InvalidPassword]
    {
        assert_eq!(Failure::Auth(reason).class(), FailureClass::Unauthorized);
    }
}

#[test]
fn store_failures_are_internal() {
    assert_eq!(Failure::NotFound.class(), FailureClass::Internal);
    assert_eq!(Failure::Decode.class(), FailureClass::Internal);
    assert_eq!(Failure::StoreRead.class(), FailureClass::Internal);
    assert_eq!(Failure::StoreWrite.class(), FailureClass::Internal);
}

#[test]
fn parse_and_range_failures_differ() {
    assert_ne!(Failure::Parse, Failure::IndexOutOfRange);
}
