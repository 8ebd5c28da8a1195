use yourls::common::{log_file_name, redact_secrets};

#[test]
fn the_redaction_pattern_compiles_and_hides_the_signature() {
    let redacted = redact_secrets("?signature=abc123&action=stats");
    assert_eq!(redacted, "?signature=<redacted>&action=stats");
}

#[test]
fn text_without_a_signature_is_untouched() {
    assert_eq!(redact_secrets("nothing secret here"), "nothing secret here");
}

#[test]
fn every_signature_is_redacted_up_to_white_space() {
    assert_eq!(
        redact_secrets("a Signature=x1 b signature=y2\tc"),
        "a Signature=<redacted> b signature=<redacted>\tc"
    );
}

#[test]
fn the_log_name_defaults_and_reports_date_fields() {
    assert_eq!(log_file_name(None), ("yourls-tray-app.log".to_string(), false));
    assert_eq!(log_file_name(Some("app-%Y.log")), ("app-%Y.log".to_string(), true));
}
