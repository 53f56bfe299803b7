use norgolith::check::{check_end, failed_message, fails_check, passed_message, CheckEnd};
use norgolith::check::{
    count_warnings, github_annotation, line_col, strip_ansi, total_error_count, CheckFormat,
    FailureKind, FileFailure, JsonDiagnostic,
};
use norgolith::schema::ValidationError;

#[test]
fn strip_ansi_removes_sgr_sequences() {
    assert_eq!(strip_ansi("\x1b[1mfoo\x1b[0m bar"), "foo bar");
    assert_eq!(strip_ansi("plain"), "plain");
}

#[test]
fn line_col_counts_bytes_for_lines_and_chars_for_columns() {
    let content = "título\nlínea dos";
    // Offset of "dos": "título" is 7 bytes + '\n' + "línea" is 6 bytes + ' ' = 15
    assert_eq!(line_col(content, 15), (2, 7));
    assert_eq!(line_col(content, 0), (1, 1));
    assert_eq!(line_col("abc", 99), (1, 4));
}

#[test]
fn github_annotation_escapes_specials() {
    let diag = JsonDiagnostic {
        file: "a,b.norg".into(),
        code: Some("norgolith::schema::missing_field".into()),
        severity: "error",
        message: "missing 'x'\nsecond line".into(),
        help: None,
        line: Some(3),
        column: Some(1),
    };
    let ann = github_annotation(&diag);
    assert!(ann.starts_with("::error file=a%2Cb.norg,line=3,col=1::"));
    assert!(ann.contains("%0A"));
    assert!(!ann.contains('\n'));
}

#[test]
fn github_annotation_skips_missing_position() {
    let diag = JsonDiagnostic {
        file: "x.norg".into(),
        code: None,
        severity: "warning",
        message: "no span".into(),
        help: None,
        line: None,
        column: None,
    };
    let ann = github_annotation(&diag);
    assert!(ann.starts_with("::warning file=x.norg::"));
    assert!(!ann.contains("line="));
}

#[test]
fn error_count_ignores_warnings() {
    let f = FileFailure {
        path: "t.norg".to_string(),
        content: String::new(),
        kind: FailureKind::Validation(vec![
            ValidationError::UnknownField {
                field: "Version".into(),
                suggested: Some("version".into()),
                span: None,
            },
            ValidationError::TypeMismatch {
                field: "version".into(),
                expected: "number".into(),
                actual: "string".into(),
                span: None,
            },
        ]),
    };
    assert_eq!(f.error_count(), 1);
}

#[test]
fn counts_over_failures_split_errors_and_warnings() {
    let failures = vec![
        FileFailure {
            path: "a.norg".to_string(),
            content: String::new(),
            kind: FailureKind::Validation(vec![
                ValidationError::MissingField { field: "title".into(), span: None },
                ValidationError::RuleConditionFailed { message: "m".into() },
            ]),
        },
        FileFailure {
            path: "b.norg".to_string(),
            content: String::new(),
            kind: FailureKind::Extract { message: "bad".into(), help: None },
        },
    ];
    assert_eq!(total_error_count(&failures), 2);
    assert_eq!(count_warnings(&failures), 1);
}

#[test]
fn check_format_names() {
    assert_eq!(CheckFormat::Human.as_str(), "human");
    assert_eq!(CheckFormat::Json.as_str(), "json");
    assert_eq!(CheckFormat::Github.as_str(), "github");
}

#[test]
fn check_messages() {
    assert_eq!(passed_message(3), "All 3 content file(s) passed schema validation");
    assert_eq!(failed_message(2, 5), "Schema validation failed: 2 file(s) failed (5 error(s) total)");
    let warn_only = vec![ValidationError::RuleConditionFailed { message: "m".into() }];
    assert!(!fails_check(&warn_only));
    let with_error = vec![ValidationError::MissingField { field: "t".into(), span: None }];
    assert!(fails_check(&with_error));
    assert!(!fails_check(&vec![]));
}

#[test]
fn check_ends_by_schema_failures_and_format() {
    match check_end(false, 3, &[], CheckFormat::Human) {
        CheckEnd::NoSchema { message } => {
            assert_eq!(message, "No content schema configured; nothing to check")
        }
        _ => panic!("expected no schema"),
    }
    match check_end(true, 3, &[], CheckFormat::Human) {
        CheckEnd::Passed { line, json } => {
            assert_eq!(line.as_deref(), Some("All 3 content file(s) passed schema validation"));
            assert!(!json);
        }
        _ => panic!("expected a pass"),
    }
    assert!(matches!(check_end(true, 3, &[], CheckFormat::Json), CheckEnd::Passed { line: None, json: true }));
    assert!(matches!(check_end(true, 3, &[], CheckFormat::Github), CheckEnd::Passed { line: None, json: false }));
    let failures = vec![
        FileFailure {
            path: "a.norg".to_string(),
            content: String::new(),
            kind: FailureKind::Validation(vec![
                ValidationError::MissingField { field: "title".into(), span: None },
                ValidationError::MissingField { field: "date".into(), span: None },
            ]),
        },
        FileFailure {
            path: "b.norg".to_string(),
            content: String::new(),
            kind: FailureKind::Extract { message: "bad".into(), help: None },
        },
    ];
    match check_end(true, 5, &failures, CheckFormat::Human) {
        CheckEnd::Failed { message, json, annotations } => {
            assert_eq!(message.as_deref(), Some("Schema validation failed: 2 file(s) failed (3 error(s) total)"));
            assert!(!json && !annotations);
        }
        _ => panic!("expected a failure"),
    }
    assert!(matches!(
        check_end(true, 5, &failures, CheckFormat::Github),
        CheckEnd::Failed { message: None, json: false, annotations: true }
    ));
    assert!(matches!(
        check_end(true, 5, &failures, CheckFormat::Json),
        CheckEnd::Failed { message: None, json: true, annotations: false }
    ));
}
