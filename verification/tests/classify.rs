use linkchecker::custom_errors::CustomError;
use linkchecker::output::{render_report, render_report_line};
use linkchecker::request::{classify_response, http_failure_reason, success_label, RequestResponse};
use linkchecker::scraper::extract_title;

#[test]
fn fetch_data_returns_body_on_success() {
    let body = "<!doctype html><html><head><title>Hello Title</title></head><body>hello world</body></html>";
    match classify_response(200, body) {
        RequestResponse::Success { label } => assert_eq!(label, "Hello Title"),
        _ => panic!("expected Ok response"),
    }
}

#[test]
fn fetch_data_returns_http_error_on_non_success_status() {
    match classify_response(404, "") {
        RequestResponse::HttpFailure { reason } => assert_eq!(reason, "Not Found"),
        _ => panic!("expected HttpError response"),
    }
}

#[test]
fn extract_title_trims_whitespace() {
    let html = "<html><head><title>\n   Hi  \t</title></head></html>";
    assert_eq!(extract_title(html), Some("Hi".to_string()));
}

#[test]
fn extract_title_missing_tag_yields_none() {
    assert_eq!(extract_title("<html><body>no title</body></html>"), None);
    assert_eq!(extract_title("<title>never closed"), None);
}

#[test]
fn success_label_falls_back_to_placeholder() {
    assert_eq!(success_label("<html><body>plain</body></html>"), "No title found");
    match classify_response(204, "") {
        RequestResponse::Success { label } => assert_eq!(label, "No title found"),
        _ => panic!("expected Success outcome"),
    }
}

#[test]
fn http_failure_reason_uses_canonical_text() {
    assert_eq!(http_failure_reason(404), "Not Found");
    assert_eq!(http_failure_reason(500), "Internal Server Error");
}

#[test]
fn http_failure_reason_falls_back_to_numeric_code() {
    assert_eq!(http_failure_reason(599), "HTTP 599");
    match classify_response(599, "") {
        RequestResponse::HttpFailure { reason } => assert_eq!(reason, "HTTP 599"),
        _ => panic!("expected HttpFailure outcome"),
    }
}

#[test]
fn success_window_is_exactly_two_hundred_to_two_ninety_nine() {
    assert!(matches!(classify_response(199, ""), RequestResponse::HttpFailure { .. }));
    assert!(matches!(classify_response(200, ""), RequestResponse::Success { .. }));
    assert!(matches!(classify_response(299, ""), RequestResponse::Success { .. }));
    assert!(matches!(classify_response(300, ""), RequestResponse::HttpFailure { .. }));
}

#[test]
fn numeric_fallback_handles_the_largest_code() {
    assert_eq!(http_failure_reason(65535), "HTTP 65535");
    assert_eq!(http_failure_reason(0), "HTTP 0");
}

#[test]
fn report_line_scenario_success() {
    let outcome = classify_response(200, "<title>Hi</title>");
    let line = render_report_line("https://a.test", &outcome);
    assert_eq!(line, "[Hi] (https://a.test)\n");
}

#[test]
fn report_line_scenario_not_found() {
    let outcome = classify_response(404, "");
    let line = render_report_line("https://b.test", &outcome);
    assert_eq!(line, "[Not Found] (https://b.test)\n");
}

#[test]
fn report_text_concatenates_lines_in_entry_order() {
    let entries = vec![
        ("https://a.test".to_string(), classify_response(200, "<title>Hi</title>")),
        ("https://b.test".to_string(), classify_response(404, "")),
    ];
    let text = render_report(&entries);
    assert_eq!(text, "[Hi] (https://a.test)\n[Not Found] (https://b.test)\n");
}

#[test]
fn error_messages_name_their_cause() {
    assert_eq!(
        CustomError::FileNotExist("/tmp/in.txt".to_string()).message(),
        "File does not exist: /tmp/in.txt"
    );
    assert_eq!(
        CustomError::FileReadError("/tmp/in.txt".to_string()).message(),
        "Failed to read file: /tmp/in.txt"
    );
    assert_eq!(
        CustomError::FileWriteError("/tmp/out.md".to_string()).message(),
        "Failed to write file: /tmp/out.md"
    );
    assert_eq!(
        CustomError::UnexpectedError("boom".to_string()).message(),
        "Unexpected error: boom"
    );
}
