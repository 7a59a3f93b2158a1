use ritellm::error::decimal_string;
use ritellm::transport::{
    bearer_header, check_single_response, endpoint_url, is_success_status, provider_failure,
    require_api_key,
};
use ritellm::{CompletionError, ErrorDetail};

#[test]
fn success_statuses() {
    assert!(is_success_status(200));
    assert!(is_success_status(204));
    assert!(is_success_status(299));
    assert!(!is_success_status(199));
    assert!(!is_success_status(300));
    assert!(!is_success_status(404));
    assert!(!is_success_status(500));
}

#[test]
fn structured_provider_error() {
    let detail = ErrorDetail {
        message: "Invalid model".to_string(),
        error_type: "invalid_request_error".to_string(),
        param: Some("model".to_string()),
        code: Some("model_not_found".to_string()),
    };
    let e = provider_failure(404, Some("Not Found".to_string()), Some("{...}".to_string()), Some(detail));
    match &e {
        CompletionError::Provider { status, reason, message, error_type, param, code } => {
            assert_eq!(*status, 404);
            assert_eq!(reason.as_deref(), Some("Not Found"));
            assert_eq!(message, "Invalid model");
            assert_eq!(error_type.as_deref(), Some("invalid_request_error"));
            assert_eq!(param.as_deref(), Some("model"));
            assert_eq!(code.as_deref(), Some("model_not_found"));
        }
        _ => panic!("unexpected {:?}", e),
    }
    assert_eq!(
        e.message(),
        "OpenAI API error (404 Not Found): invalid_request_error - Invalid model"
    );
}

#[test]
fn raw_provider_error() {
    let e = provider_failure(502, Some("Bad Gateway".to_string()), Some("upstream down".to_string()), None);
    assert_eq!(e.message(), "OpenAI API error (502 Bad Gateway): upstream down");
    let e = provider_failure(599, None, None, None);
    assert_eq!(e.message(), "OpenAI API error (599 <unknown status code>): Unknown error");
    assert!(matches!(e, CompletionError::Provider { error_type: None, param: None, code: None, .. }));
}

#[test]
fn decimal_text() {
    assert_eq!(decimal_string(0), "0");
    assert_eq!(decimal_string(7), "7");
    assert_eq!(decimal_string(10), "10");
    assert_eq!(decimal_string(429), "429");
    assert_eq!(decimal_string(65535), "65535");
}

#[test]
fn authorization_header() {
    assert_eq!(bearer_header("sk-abc"), "Bearer sk-abc");
    assert_eq!(bearer_header(""), "Bearer ");
}

#[test]
fn streaming_flag_on_single_response_path() {
    assert!(check_single_response(None).is_ok());
    assert!(check_single_response(Some(false)).is_ok());
    let e = check_single_response(Some(true)).err().unwrap();
    assert!(matches!(e, CompletionError::StreamingRequested));
    assert_eq!(e.message(), "When stream is true, use openai_completion_stream instead");
}

#[test]
fn missing_credential() {
    assert_eq!(require_api_key(Some("k".to_string())).unwrap(), "k");
    let e = require_api_key(None).err().unwrap();
    assert!(matches!(e, CompletionError::Config { .. }));
    assert_eq!(e.message(), "OPENAI_API_KEY environment variable not set");
}

#[test]
fn other_error_texts() {
    assert_eq!(
        CompletionError::StreamClosed.message(),
        "Stream closed before the end-of-stream marker"
    );
    assert_eq!(
        CompletionError::Transport { message: "error sending request".to_string() }.message(),
        "Failed to send request to OpenAI API: error sending request"
    );
    assert_eq!(
        CompletionError::StreamRead { message: "timed out".to_string() }.message(),
        "EventSource error: timed out"
    );
}

#[test]
fn endpoint_choice() {
    assert_eq!(endpoint_url(None), "https://api.openai.com/v1/chat/completions");
    assert_eq!(
        endpoint_url(Some("http://localhost:8080/v1")),
        "http://localhost:8080/v1/chat/completions"
    );
    assert_eq!(
        endpoint_url(Some("http://localhost:8080/v1//")),
        "http://localhost:8080/v1/chat/completions"
    );
    assert_eq!(endpoint_url(Some("")), "/chat/completions");
    assert_eq!(endpoint_url(Some("/")), "/chat/completions");
}
