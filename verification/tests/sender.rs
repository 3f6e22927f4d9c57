use inventory_agent::sender::{classify_response, SendError};

#[test]
fn test_success_statuses_are_ok() {
    assert!(classify_response(200, String::new()).is_ok());
    assert!(classify_response(204, String::new()).is_ok());
    assert!(classify_response(299, String::new()).is_ok());
}

#[test]
fn test_server_error_carries_status_and_body() {
    let r = classify_response(500, "Internal Server Error".to_string());
    let e = r.unwrap_err();
    let msg = e.message();
    assert!(msg.contains("500"));
    assert!(msg.contains("Internal Server Error"));
    assert_eq!(msg, "API returned 500: Internal Server Error");
}

#[test]
fn test_non_success_statuses_are_errors() {
    assert!(classify_response(199, String::new()).is_err());
    assert!(classify_response(301, String::new()).is_err());
    assert!(classify_response(404, String::new()).is_err());
}

#[test]
fn test_transport_error_message_names_cause() {
    let e = SendError::Transport {
        detail: "connection refused".to_string(),
    };
    assert_eq!(e.message(), "HTTP send failed: connection refused");
}
