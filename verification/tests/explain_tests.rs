use norgolith::explain::explain_error;

#[test]
fn explain_error_normalizes_full_and_short_codes() {
    let full = explain_error("norgolith::schema::missing_field");
    let short = explain_error("missing_field");
    assert_eq!(full, short);
    assert!(full.contains("Docs: https://"));
}

#[test]
fn explain_error_rejects_unknown_codes() {
    let out = explain_error("nope");
    assert!(out.contains("Unknown error code"));
}

#[test]
fn explain_error_without_code() {
    assert_eq!(explain_error("   "), "No error code provided.");
}

#[test]
fn explain_error_layout() {
    let out = explain_error("type_mismatch");
    assert!(out.starts_with("Type mismatch\n\nCode: norgolith::schema::type_mismatch\n\nWhat it means:\n"));
}
