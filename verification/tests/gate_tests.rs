use pagestore::gate::authorize;
use pagestore::gate::AuthError;

#[test]
fn authorize_missing_secret() {
    let r = authorize("hello", None, Some("alice"));
    assert_eq!(r, Err(AuthError::MissingSecret));
    assert_eq!(AuthError::MissingSecret.message(), "no api key");
}

#[test]
fn authorize_wrong_secret() {
    let r = authorize("hello", Some("goodbye"), Some("alice"));
    assert_eq!(r, Err(AuthError::WrongSecret));
    assert_eq!(AuthError::WrongSecret.message(), "invalid api key");
}

#[test]
fn authorize_wrong_secret_prefix() {
    let r = authorize("hello", Some("hell"), Some("alice"));
    assert_eq!(r, Err(AuthError::WrongSecret));
    let r = authorize("hello", Some("hello "), Some("alice"));
    assert_eq!(r, Err(AuthError::WrongSecret));
}

#[test]
fn authorize_missing_caller_id() {
    let r = authorize("hello", Some("hello"), None);
    assert_eq!(r, Err(AuthError::MissingCallerId));
    assert_eq!(AuthError::MissingCallerId.message(), "no user_id");
}

#[test]
fn authorize_accepts_matching_secret() {
    let r = authorize("hello", Some("hello"), Some("alice"));
    assert_eq!(r, Ok("alice"));
}

#[test]
fn authorize_secret_checked_before_caller_id() {
    let r = authorize("hello", None, None);
    assert_eq!(r, Err(AuthError::MissingSecret));
}
