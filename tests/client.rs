use ckpool_api::client::{classify_response, classify_status, decode_document, path_segment, user_url};
use ckpool_api::error::{DecodeError, Error};

#[test]
fn not_found_is_user_not_found() {
    assert!(matches!(classify_status(404), Err(Error::UserNotFound)));
}

#[test]
fn server_error_is_upstream_with_code() {
    assert!(matches!(classify_status(500), Err(Error::Upstream(500))));
    assert!(matches!(classify_status(302), Err(Error::Upstream(302))));
    assert!(matches!(classify_status(403), Err(Error::Upstream(403))));
}

#[test]
fn success_statuses_pass() {
    assert!(classify_status(200).is_ok());
    assert!(classify_status(299).is_ok());
    assert!(classify_response(Ok(200)).is_ok());
    assert!(matches!(classify_response(Ok(404)), Err(Error::UserNotFound)));
}

#[test]
fn connection_failure_is_transport() {
    let r = classify_response(Err("connection refused".to_string()));
    match r {
        Err(Error::Transport(m)) => assert_eq!(m, "connection refused"),
        other => panic!("expected a transport error, got {:?}", other),
    }
}

#[test]
fn non_json_body_is_decode_error() {
    let parsed: Result<serde_json::Value, serde_json::Error> = serde_json::from_str("<html>oops</html>");
    let msg = parsed.unwrap_err().to_string();
    match decode_document(Err(msg.clone())) {
        Err(Error::Decode(DecodeError::Json(m))) => assert_eq!(m, msg),
        other => panic!("expected a decode error, got {:?}", other),
    }
}

#[test]
fn user_url_joins_users_path() {
    let base = url::Url::parse("https://solo.ckpool.org").unwrap();
    let u = user_url(&base, "bc1qz9vvexjmexe8pr2aueuz6x0v94ulkx2m2sp6lr").unwrap();
    assert_eq!(u.as_str(), "https://solo.ckpool.org/users/bc1qz9vvexjmexe8pr2aueuz6x0v94ulkx2m2sp6lr");
    let base = url::Url::parse("https://pool.example/api/").unwrap();
    assert_eq!(user_url(&base, "alice").unwrap().as_str(), "https://pool.example/users/alice");
}

#[test]
fn unparsable_target_is_invalid_endpoint() {
    let base = url::Url::parse("mailto:someone@example.com").unwrap();
    assert!(matches!(user_url(&base, "alice"), Err(Error::InvalidEndpoint(_))));
}

#[test]
fn messages_name_the_failure() {
    assert_eq!(Error::UserNotFound.message(), "User not found");
    assert_eq!(Error::Upstream(500).message(), "HTTP status 500");
    assert_eq!(Error::Upstream(7).message(), "HTTP status 7");
    assert_eq!(Error::Upstream(65535).message(), "HTTP status 65535");
    assert_eq!(Error::Transport("timed out".to_string()).message(), "timed out");
    let field = Error::Decode(DecodeError::Field { field: "hashrate1m".to_string(), text: "x".to_string() });
    assert_eq!(field.message(), "invalid value in field hashrate1m: x");
    let number = Error::Decode(DecodeError::InvalidNumber("3Q".to_string()));
    assert_eq!(number.message(), "invalid number: 3Q");
    let base = url::Url::parse("mailto:someone@example.com").unwrap();
    let e = user_url(&base, "alice").unwrap_err();
    assert_eq!(e.message(), "relative URL with a cannot-be-a-base base");
}

#[test]
fn identifier_stays_one_path_segment() {
    assert_eq!(path_segment("bc1qz9vv-x_y.z~"), "bc1qz9vv-x_y.z~");
    assert_eq!(path_segment("a/b?c#d"), "a%2Fb%3Fc%23d");
    assert_eq!(path_segment("http://other/"), "http%3A%2F%2Fother%2F");
    assert_eq!(path_segment("a b%"), "a%20b%25");
    assert_eq!(path_segment("é"), "é");
    let base = url::Url::parse("https://solo.ckpool.org").unwrap();
    assert_eq!(user_url(&base, "a/b").unwrap().as_str(), "https://solo.ckpool.org/users/a%2Fb");
    assert_eq!(user_url(&base, "//h/x").unwrap().as_str(), "https://solo.ckpool.org/users/%2F%2Fh%2Fx");
    assert_eq!(user_url(&base, "é").unwrap().as_str(), "https://solo.ckpool.org/users/%C3%A9");
}
