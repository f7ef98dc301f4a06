use nanochat_config::strutil::u16_to_string;
use nanochat_config::validate::{classify_status, endpoint_url, ValidateError};

#[test]
fn endpoint_with_and_without_trailing_slash_are_identical() {
    let with = endpoint_url("https://host/");
    let without = endpoint_url("https://host");
    assert_eq!(with, "https://host/api/db/user-settings");
    assert_eq!(without, "https://host/api/db/user-settings");
    assert_eq!(with, without);
}

#[test]
fn endpoint_strips_every_trailing_slash() {
    assert_eq!(endpoint_url("https://host///"), "https://host/api/db/user-settings");
    assert_eq!(endpoint_url("http://a:8080/"), "http://a:8080/api/db/user-settings");
}

#[test]
fn endpoint_of_empty_url() {
    assert_eq!(endpoint_url(""), "/api/db/user-settings");
    assert_eq!(endpoint_url("/"), "/api/db/user-settings");
}

#[test]
fn success_statuses_return_true() {
    assert_eq!(classify_status(200, None).unwrap(), true);
    assert_eq!(classify_status(204, None).unwrap(), true);
    assert_eq!(classify_status(299, None).unwrap(), true);
}

#[test]
fn status_401_is_an_auth_error() {
    let e = classify_status(401, None).unwrap_err();
    assert!(matches!(e, ValidateError::Auth));
    assert_eq!(e.message(), "Invalid API key or unauthorized");
}

#[test]
fn status_404_is_endpoint_not_found() {
    let e = classify_status(404, None).unwrap_err();
    assert!(matches!(e, ValidateError::EndpointNotFound));
    assert_eq!(e.message(), "API endpoint not found. Please check your server URL");
}

#[test]
fn status_500_message_carries_code_and_reason() {
    let e = classify_status(500, Some("Internal Server Error".to_string())).unwrap_err();
    assert!(matches!(e, ValidateError::Server(500, _)));
    let msg = e.message();
    assert_eq!(msg, "API returned error: 500 - Internal Server Error");
    assert!(msg.contains("500"));
}

#[test]
fn status_without_reason_reads_unknown() {
    let e = classify_status(503, None).unwrap_err();
    assert_eq!(e.message(), "API returned error: 503 - Unknown");
}

#[test]
fn redirects_are_server_errors_too() {
    let e = classify_status(302, Some("Found".to_string())).unwrap_err();
    assert!(matches!(e, ValidateError::Server(302, _)));
    assert_eq!(e.message(), "API returned error: 302 - Found");
}

#[test]
fn connection_error_message_wraps_the_cause() {
    let e = ValidateError::Connection("dns failure".to_string());
    assert_eq!(e.message(), "Connection failed: dns failure");
}

#[test]
fn decimal_rendering_is_exact() {
    assert_eq!(u16_to_string(0), "0");
    assert_eq!(u16_to_string(7), "7");
    assert_eq!(u16_to_string(10), "10");
    assert_eq!(u16_to_string(404), "404");
    assert_eq!(u16_to_string(65535), "65535");
}
