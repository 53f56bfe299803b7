use norgolith::meta_spans::try_scan_meta_spans;
use norgolith::meta_spans::{enrich_spans, find_field_span, scan_meta_spans, Span};
use norgolith::schema::ValidationError;

fn meta_doc(fields: &str) -> String {
    format!("some content\n@document.meta\n{}\n@end\nrest", fields)
}

#[test]
fn finds_simple_field_value_span() {
    let content = meta_doc("title: Hello World\nauthor: Alice");
    let span = find_field_span(&content, "title").unwrap();
    let expected_start = content.find("Hello World").unwrap();
    assert_eq!(span.offset(), expected_start);
    assert_eq!(span.len(), "Hello World".len());
}

#[test]
fn span_points_to_value_not_key() {
    let content = meta_doc("title: My Post");
    let span = find_field_span(&content, "title").unwrap();
    let expected = content.find("My Post").unwrap();
    assert_eq!(span.offset(), expected);
    assert_eq!(span.len(), "My Post".len());
}

#[test]
fn finds_field_at_end_of_meta_block() {
    let content = meta_doc("title: My Post\nversion: 1.0");
    let span = find_field_span(&content, "version").unwrap();
    let expected = content.find("1.0").unwrap();
    assert_eq!(span.offset(), expected);
    assert_eq!(span.len(), 3);
}

#[test]
fn missing_field_returns_none() {
    let content = meta_doc("title: My Post");
    assert!(find_field_span(&content, "author").is_none());
}

#[test]
fn no_meta_block_returns_none() {
    let content = "just a plain norg file without metadata";
    assert!(find_field_span(&content, "title").is_none());
}

#[test]
fn open_meta_block_without_end_returns_none() {
    let content = "@document.meta\ntitle: My Post\n";
    assert!(find_field_span(&content, "title").is_none());
}

#[test]
fn does_not_match_field_name_inside_string_value() {
    let content = meta_doc("title: \"talks about author: X\"\nauthor: Alice");
    let span = find_field_span(&content, "author").unwrap();
    let expected = content.rfind("Alice").unwrap();
    assert_eq!(span.offset(), expected);
}

#[test]
fn nested_field_dot_path_returns_none() {
    let content = meta_doc("author:\n  name: Alice");
    assert!(find_field_span(&content, "author.name").is_none());
}

#[test]
fn empty_value_returns_none() {
    let content = meta_doc("title:\nauthor: Alice");
    assert!(find_field_span(&content, "title").is_none());
}

#[test]
fn enrich_spans_sets_span_for_constraint_violation() {
    let content = meta_doc("title: This title is way too long");
    let errors = vec![ValidationError::ConstraintViolation {
        field: "title".into(),
        message: "Exceeds max length 5".into(),
        span: None,
    }];
    let enriched = enrich_spans(errors, &scan_meta_spans(&content));
    match &enriched[0] {
        ValidationError::ConstraintViolation { span, .. } => {
            let span = span.as_ref().unwrap();
            assert_eq!(span.offset(), content.find("This title").unwrap());
        }
        _ => panic!("expected constraint violation"),
    }
}

#[test]
fn enrich_spans_sets_span_for_type_mismatch() {
    let content = meta_doc("version: 1.0");
    let errors = vec![ValidationError::TypeMismatch {
        field: "version".into(),
        expected: "string".into(),
        actual: "1.0".into(),
        span: None,
    }];
    let enriched = enrich_spans(errors, &scan_meta_spans(&content));
    match &enriched[0] {
        ValidationError::TypeMismatch { span, .. } => {
            let span = span.as_ref().unwrap();
            assert_eq!(span.offset(), content.find("1.0").unwrap());
        }
        _ => panic!("expected type mismatch"),
    }
}

#[test]
fn enrich_spans_points_missing_field_at_meta_directive() {
    let errors = vec![ValidationError::MissingField { field: "author".into(), span: None }];
    let content = meta_doc("title: My Post");
    let enriched = enrich_spans(errors, &scan_meta_spans(&content));
    match &enriched[0] {
        ValidationError::MissingField { field, span } => {
            assert_eq!(field, "author");
            let span = span.as_ref().unwrap();
            assert_eq!(span.offset(), content.find("@document.meta").unwrap());
        }
        _ => panic!("expected missing field"),
    }
}

#[test]
fn enrich_spans_keeps_span_none_when_field_not_found() {
    let content = meta_doc("title: My Post");
    let errors = vec![ValidationError::ConstraintViolation {
        field: "author".into(),
        message: "Exceeds max length 5".into(),
        span: None,
    }];
    let enriched = enrich_spans(errors, &scan_meta_spans(&content));
    match &enriched[0] {
        ValidationError::ConstraintViolation { span, .. } => assert!(span.is_none()),
        _ => panic!("expected constraint violation"),
    }
}

// Nested object fields

#[test]
fn finds_nested_object_field_span() {
    let content = meta_doc("author: {\n  name: Alice\n  email: alice@example.com\n}");
    let span = find_field_span(&content, "author.name").unwrap();
    let expected = content.find("Alice").unwrap();
    assert_eq!(span.offset(), expected);
    assert_eq!(span.len(), "Alice".len());
}

#[test]
fn finds_deeply_nested_object_field_span() {
    let content = meta_doc("seo: {\n  og: {\n    image: /img/hero.png\n  }\n}");
    let span = find_field_span(&content, "seo.og.image").unwrap();
    let expected = content.find("/img/hero.png").unwrap();
    assert_eq!(span.offset(), expected);
    assert_eq!(span.len(), "/img/hero.png".len());
}

#[test]
fn finds_nested_field_in_inline_object() {
    let content = meta_doc("pricing: { usd: 29.99 }");
    let span = find_field_span(&content, "pricing.usd").unwrap();
    let expected = content.find("29.99").unwrap();
    assert_eq!(span.offset(), expected);
    assert_eq!(span.len(), 5);
}

#[test]
fn comma_is_not_a_separator_in_objects() {
    // the metadata grammar separates on newlines only: commas are string chars
    let content = meta_doc("pricing: { usd: 29.99, tier: premium }");
    let span = find_field_span(&content, "pricing.usd").unwrap();
    assert_eq!(span.len(), "29.99, tier: premium".len());
    assert!(find_field_span(&content, "pricing.tier").is_none());
}

#[test]
fn sibling_key_not_swallowed_by_nested_object() {
    let content = meta_doc("author: {\n  name: Alice\n}\ntitle: A Post");
    let span = find_field_span(&content, "title").unwrap();
    let expected = content.find("A Post").unwrap();
    assert_eq!(span.offset(), expected);
    assert!(find_field_span(&content, "author.name").is_some());
}

#[test]
fn indented_object_without_braces_is_not_nested() {
    // `author:` is an empty value here; `name` is a top-level sibling
    let content = meta_doc("author:\n  name: Alice");
    assert!(find_field_span(&content, "author.name").is_none());
    assert!(find_field_span(&content, "name").is_some());
}

// Array items

#[test]
fn finds_array_item_span() {
    let content = meta_doc("categories: [\n  docs\n  blog\n]");
    let span = find_field_span(&content, "categories[0]").unwrap();
    let expected = content.find("docs").unwrap();
    assert_eq!(span.offset(), expected);
    assert_eq!(span.len(), 4);

    let second = find_field_span(&content, "categories[1]").unwrap();
    let expected = content.find("blog").unwrap();
    assert_eq!(second.offset(), expected);
}

#[test]
fn finds_array_item_in_inline_array() {
    let content = meta_doc("categories: [docs]");
    let span = find_field_span(&content, "categories[0]").unwrap();
    let expected = content.find("docs").unwrap();
    assert_eq!(span.offset(), expected);
    assert_eq!(span.len(), 4);
}

#[test]
fn comma_is_not_a_separator_in_metadata() {
    // the metadata grammar separates on newlines only: commas are string chars
    let content = meta_doc("categories: [a, b, c]");
    let span = find_field_span(&content, "categories[0]").unwrap();
    assert_eq!(span.len(), "a, b, c".len());
    assert!(find_field_span(&content, "categories[1]").is_none());
}

#[test]
fn finds_nested_field_in_array_of_objects() {
    let content = meta_doc("authors: [\n  { name: Alice }\n  { name: Bob }\n]");
    let span = find_field_span(&content, "authors[0].name").unwrap();
    let expected = content.find("Alice").unwrap();
    assert_eq!(span.offset(), expected);

    let second = find_field_span(&content, "authors[1].name").unwrap();
    let expected = content.find("Bob").unwrap();
    assert_eq!(second.offset(), expected);
}

#[test]
fn empty_array_and_object_have_no_children() {
    let content = meta_doc("categories: []\nmeta: {}");
    assert!(find_field_span(&content, "categories[0]").is_none());
    assert!(find_field_span(&content, "meta.foo").is_none());
}

#[test]
fn array_out_of_bounds_returns_none() {
    let content = meta_doc("categories: [\n  docs\n]");
    assert!(find_field_span(&content, "categories[3]").is_none());
}

#[test]
fn nested_array_inside_object() {
    let content = meta_doc("post: {\n  tags: [\n    rust\n    norg\n  ]\n}");
    let span = find_field_span(&content, "post.tags[1]").unwrap();
    let expected = content.find("norg").unwrap();
    assert_eq!(span.offset(), expected);
}

// Enrichment with nested paths

#[test]
fn enrich_spans_resolves_nested_path() {
    let content = meta_doc("author: {\n  name: X\n}");
    let errors = vec![ValidationError::TypeMismatch {
        field: "author.name".into(),
        expected: "string".into(),
        actual: "integer".into(),
        span: None,
    }];
    let enriched = enrich_spans(errors, &scan_meta_spans(&content));
    match &enriched[0] {
        ValidationError::TypeMismatch { span, .. } => {
            let span = span.as_ref().unwrap();
            assert_eq!(span.offset(), content.find("X").unwrap());
        }
        _ => panic!("expected type mismatch"),
    }
}

#[test]
fn enrich_spans_resolves_array_item_path() {
    let content = meta_doc("categories: [\n  docs\n]");
    let errors = vec![ValidationError::ConstraintViolation {
        field: "categories[0]".into(),
        message: "Exceeds max length 2".into(),
        span: None,
    }];
    let enriched = enrich_spans(errors, &scan_meta_spans(&content));
    match &enriched[0] {
        ValidationError::ConstraintViolation { span, .. } => {
            let span = span.as_ref().unwrap();
            assert_eq!(span.offset(), content.find("docs").unwrap());
        }
        _ => panic!("expected constraint violation"),
    }
}

#[test]
fn meta_directive_span_covers_the_directive() {
    let content = meta_doc("title: T");
    let spans = scan_meta_spans(&content);
    let s = spans.get(b"@meta").unwrap();
    assert_eq!(s.offset(), content.find("@document.meta").unwrap());
    assert_eq!(s.len(), "@document.meta".len());
}

#[test]
fn rule_failures_keep_no_span() {
    let content = meta_doc("title: T");
    let errors = vec![ValidationError::RuleConditionFailed { message: "m".into() }];
    let enriched = enrich_spans(errors, &scan_meta_spans(&content));
    assert!(enriched[0].span().is_none());
    let _ = Span::new(0, 0);
}

#[test]
fn blocks_that_cannot_be_scanned_are_reported() {
    assert!(try_scan_meta_spans("@document.meta\ntitle: abc\\@end").is_none());
    assert!(try_scan_meta_spans("@document.meta@end").is_none());
    assert!(try_scan_meta_spans("no block").is_some());
    let ok = try_scan_meta_spans("@document.meta\ntitle: a\\b\n@end").unwrap();
    assert!(ok.get(b"title").is_some());
}
