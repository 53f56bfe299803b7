use norgolith::hierarchy::{content_path_of, matched_schema_path, schema_source_name};
use norgolith::hierarchy::ContentSchema;
use norgolith::schema::{
    get_path, split_index, FieldDefinition, FloatBound, MetaData, MetaValue, RuleAction,
    ValidationError, ValidationErrors, ValidationRule,
};

fn sv(s: &str) -> MetaValue {
    MetaValue { data: MetaData::String(s.to_string()), text: format!("{:?}", s) }
}

fn bv(b: bool) -> MetaValue {
    MetaValue { data: MetaData::Boolean(b), text: b.to_string() }
}

fn iv(n: i64) -> MetaValue {
    MetaValue { data: MetaData::Integer(n), text: n.to_string() }
}

fn fv(f: f64) -> MetaValue {
    MetaValue { data: MetaData::Float(f.to_bits()), text: format!("{:?}", f) }
}

fn arr(items: Vec<MetaValue>) -> MetaValue {
    let text = format!(
        "[{}]",
        items.iter().map(|v| v.text.clone()).collect::<Vec<_>>().join(", ")
    );
    MetaValue { data: MetaData::Array(items), text }
}

fn table(entries: Vec<(&str, MetaValue)>) -> MetaValue {
    let text = format!(
        "{{ {} }}",
        entries.iter().map(|(k, v)| format!("{} = {}", k, v.text)).collect::<Vec<_>>().join(", ")
    );
    MetaValue {
        data: MetaData::Table(entries.into_iter().map(|(k, v)| (k.to_string(), v)).collect()),
        text,
    }
}

fn str_array(items: &[&str]) -> MetaValue {
    arr(items.iter().map(|s| sv(s)).collect())
}

fn bound(f: f64) -> Option<FloatBound> {
    Some(FloatBound { bits: f.to_bits(), text: format!("{:?}", f) })
}

fn plain_string() -> FieldDefinition {
    FieldDefinition::String { min_length: None, max_length: None, pattern: None }
}

fn bare_schema(required: &[&str]) -> ContentSchema {
    ContentSchema {
        required: required.iter().map(|s| s.to_string()).collect(),
        fields: Vec::new(),
        rules: Vec::new(),
        paths: Vec::new(),
    }
}

// FieldDefinition::String

#[test]
fn string_valid() {
    let def = plain_string();
    assert!(def.validate(&sv("hello"), "title").is_ok());
}

#[test]
fn string_within_max_length_ok() {
    let def = FieldDefinition::String { min_length: None, max_length: Some(10), pattern: None };
    assert!(def.validate(&sv("hello"), "title").is_ok());
}

#[test]
fn string_at_exact_max_length_ok() {
    let def = FieldDefinition::String { min_length: None, max_length: Some(5), pattern: None };
    assert!(def.validate(&sv("hello"), "title").is_ok());
}

#[test]
fn string_exceeds_max_length() {
    let def = FieldDefinition::String { min_length: None, max_length: Some(3), pattern: None };
    let err = def.validate(&sv("hello"), "title").unwrap_err();
    assert!(matches!(err, ValidationError::ConstraintViolation { .. }));
}

#[test]
fn string_matching_pattern_ok() {
    let def = FieldDefinition::String {
        min_length: None,
        max_length: None,
        pattern: Some(r"^\d+$".into()),
    };
    assert!(def.validate(&sv("1234"), "title").is_ok());
}

#[test]
fn string_non_matching_pattern_errors() {
    let def = FieldDefinition::String {
        min_length: None,
        max_length: None,
        pattern: Some(r"^\d+$".into()),
    };
    let err = def.validate(&sv("abc"), "title").unwrap_err();
    assert!(matches!(err, ValidationError::ConstraintViolation { .. }));
}

#[test]
fn string_wrong_type_errors() {
    let def = plain_string();
    let err = def.validate(&bv(true), "title").unwrap_err();
    assert!(matches!(err, ValidationError::TypeMismatch { .. }));
}

// FieldDefinition::Boolean

#[test]
fn boolean_true_valid() {
    assert!(FieldDefinition::Boolean.validate(&bv(true), "draft").is_ok());
}

#[test]
fn boolean_false_valid() {
    assert!(FieldDefinition::Boolean.validate(&bv(false), "draft").is_ok());
}

#[test]
fn boolean_string_errors() {
    let err = FieldDefinition::Boolean.validate(&sv("true"), "draft").unwrap_err();
    assert!(matches!(err, ValidationError::TypeMismatch { .. }));
}

// FieldDefinition::Array

fn string_array_def(
    min_items: Option<usize>,
    max_items: Option<usize>,
    must_contain: Option<Vec<MetaValue>>,
) -> FieldDefinition {
    FieldDefinition::Array { items: Box::new(plain_string()), min_items, max_items, must_contain }
}

#[test]
fn array_valid_no_constraints() {
    let def = string_array_def(None, None, None);
    assert!(def.validate(&str_array(&["a", "b"]), "tags").is_ok());
}

#[test]
fn array_min_items_exactly_satisfied() {
    let def = string_array_def(Some(2), None, None);
    assert!(def.validate(&str_array(&["a", "b"]), "tags").is_ok());
}

#[test]
fn array_min_items_violated() {
    let def = string_array_def(Some(3), None, None);
    let err = def.validate(&str_array(&["a", "b"]), "tags").unwrap_err();
    assert!(matches!(err, ValidationError::ConstraintViolation { .. }));
}

#[test]
fn array_max_items_exactly_satisfied() {
    let def = string_array_def(None, Some(3), None);
    assert!(def.validate(&str_array(&["a", "b"]), "tags").is_ok());
}

#[test]
fn array_max_items_violated() {
    let def = string_array_def(None, Some(2), None);
    let err = def.validate(&str_array(&["a", "b", "c"]), "tags").unwrap_err();
    assert!(matches!(err, ValidationError::ConstraintViolation { .. }));
}

#[test]
fn array_must_contain_present_ok() {
    let def = string_array_def(None, None, Some(vec![sv("norgolith")]));
    assert!(def.validate(&str_array(&["foo", "norgolith"]), "tags").is_ok());
}

#[test]
fn array_must_contain_absent_errors() {
    let def = string_array_def(None, None, Some(vec![sv("norgolith")]));
    let err = def.validate(&str_array(&["foo", "bar"]), "tags").unwrap_err();
    assert!(matches!(err, ValidationError::ConstraintViolation { .. }));
}

#[test]
fn array_wrong_type_errors() {
    let def = FieldDefinition::Array {
        items: Box::new(FieldDefinition::Boolean),
        min_items: None,
        max_items: None,
        must_contain: None,
    };
    let err = def.validate(&sv("not an array"), "tags").unwrap_err();
    assert!(matches!(err, ValidationError::TypeMismatch { .. }));
}

#[test]
fn array_item_type_mismatch_errors() {
    let def = string_array_def(None, None, None);
    let a = arr(vec![sv("ok"), iv(42)]);
    let err = def.validate(&a, "tags").unwrap_err();
    assert!(matches!(err, ValidationError::TypeMismatch { .. }));
}

#[test]
fn array_item_string_pattern_validates() {
    let def = FieldDefinition::Array {
        items: Box::new(FieldDefinition::String {
            min_length: None,
            max_length: None,
            pattern: Some(r"^\d+$".into()),
        }),
        min_items: None,
        max_items: None,
        must_contain: None,
    };
    let ok = arr(vec![sv("123"), sv("456")]);
    assert!(def.validate(&ok, "tags").is_ok());

    let bad = arr(vec![sv("123"), sv("abc")]);
    let err = def.validate(&bad, "tags").unwrap_err();
    assert!(matches!(err, ValidationError::ConstraintViolation { .. }));
}

// ContentSchema::resolve_path

#[test]
fn resolve_path_root_only() {
    let schema = bare_schema(&["title"]);
    assert_eq!(schema.resolve_path("about").len(), 1);
}

#[test]
fn resolve_path_single_child() {
    let mut schema = bare_schema(&["title"]);
    schema.paths.push(("posts".into(), bare_schema(&["category"])));
    let nodes = schema.resolve_path("posts/my-post");
    assert_eq!(nodes.len(), 2);
    assert!(nodes[1].required.contains(&"category".to_string()));
}

#[test]
fn resolve_path_unknown_component_stays_at_root() {
    let schema = bare_schema(&["title"]);
    assert_eq!(schema.resolve_path("nonexistent/deep").len(), 1);
}

#[test]
fn resolve_path_partial_match_stops_at_last_known() {
    let mut schema = bare_schema(&["title"]);
    schema.paths.push(("posts".into(), bare_schema(&["category"])));
    // "posts" matches, "2025" has no child entry under posts
    let nodes = schema.resolve_path("posts/2025/my-post");
    assert_eq!(nodes.len(), 2);
}

#[test]
fn resolve_path_star_matches_single_component() {
    let mut schema = bare_schema(&["title"]);
    let mut posts = bare_schema(&["category"]);
    posts.paths.push(("*".into(), bare_schema(&["year"])));
    schema.paths.push(("posts".into(), posts));
    let nodes = schema.resolve_path("posts/2025/my-post");
    assert_eq!(nodes.len(), 3);
    assert!(nodes[2].required.contains(&"year".to_string()));
}

#[test]
fn resolve_path_double_star_matches_any_depth() {
    let mut schema = bare_schema(&["title"]);
    let mut posts = bare_schema(&["category"]);
    posts.paths.push(("**".into(), bare_schema(&["year"])));
    schema.paths.push(("posts".into(), posts));
    let nodes = schema.resolve_path("posts/2025/01/my-post");
    assert_eq!(nodes.len(), 3);
    assert!(nodes[2].required.contains(&"year".to_string()));
}

#[test]
fn resolve_path_exact_takes_precedence_over_star() {
    let mut schema = bare_schema(&["title"]);
    let mut posts = bare_schema(&["category"]);
    posts.paths.push(("*".into(), bare_schema(&["year"])));
    posts.paths.push(("2025".into(), bare_schema(&["exact"])));
    schema.paths.push(("posts".into(), posts));
    let nodes = schema.resolve_path("posts/2025/my-post");
    assert_eq!(nodes.len(), 3);
    assert!(nodes[2].required.contains(&"exact".to_string()));
    assert!(!nodes[2].required.contains(&"year".to_string()));
}

#[test]
fn resolve_path_star_skips_unknown_component() {
    let mut schema = bare_schema(&["title"]);
    let mut posts = bare_schema(&["category"]);
    posts.paths.push(("2025".into(), bare_schema(&["year"])));
    schema.paths.push(("posts".into(), posts));
    // "2025" doesn't exist, so "*" would not match "2024/01"
    let nodes = schema.resolve_path("posts/nope/my-post");
    assert_eq!(nodes.len(), 2);
}

// ContentSchema::merge_hierarchy

#[test]
fn merge_single_node_identity() {
    let schema = bare_schema(&["title", "author"]);
    let merged = ContentSchema::merge_hierarchy(&[&schema]);
    assert_eq!(merged.required.len(), 2);
}

#[test]
fn merge_deduplicates_required_fields() {
    let a = bare_schema(&["title", "author"]);
    let b = bare_schema(&["author", "created"]);
    let merged = ContentSchema::merge_hierarchy(&[&a, &b]);
    assert_eq!(merged.required.iter().filter(|f| *f == "author").count(), 1);
    assert_eq!(merged.required.len(), 3);
}

#[test]
fn merge_later_field_definition_overrides_earlier() {
    let mut a = bare_schema(&[]);
    a.fields.push((
        "title".into(),
        FieldDefinition::String { min_length: None, max_length: Some(50), pattern: None },
    ));
    let mut b = bare_schema(&[]);
    b.fields.push((
        "title".into(),
        FieldDefinition::String { min_length: None, max_length: Some(120), pattern: None },
    ));
    let merged = ContentSchema::merge_hierarchy(&[&a, &b]);
    let def = merged.fields.iter().find(|(k, _)| k == "title").map(|(_, d)| d).unwrap();
    match def {
        FieldDefinition::String { max_length, .. } => assert_eq!(*max_length, Some(120)),
        _ => panic!("unexpected field definition type"),
    }
}

#[test]
fn merge_rules_accumulate_in_order() {
    let mut a = bare_schema(&[]);
    a.rules.push(ValidationRule {
        condition: vec![("draft".into(), bv(false))],
        action: RuleAction { required: Some(vec!["publish_date".into()]), fields: None },
    });
    let mut b = bare_schema(&[]);
    b.rules.push(ValidationRule {
        condition: vec![("featured".into(), bv(true))],
        action: RuleAction { required: Some(vec!["hero_image".into()]), fields: None },
    });
    let merged = ContentSchema::merge_hierarchy(&[&a, &b]);
    assert_eq!(merged.rules.len(), 2);
    assert_eq!(merged.rules[0].condition[0].0, "draft");
    assert_eq!(merged.rules[1].condition[0].0, "featured");
}

// ValidationRule::applies

fn draft_rule() -> ValidationRule {
    ValidationRule {
        condition: vec![("draft".into(), bv(false))],
        action: RuleAction { required: Some(vec!["publish_date".into()]), fields: None },
    }
}

#[test]
fn rule_applies_when_condition_matches() {
    let meta = vec![("draft".to_string(), bv(false))];
    assert!(matches!(draft_rule().applies(&meta), Ok(true)));
}

#[test]
fn rule_does_not_apply_when_value_differs() {
    let meta = vec![("draft".to_string(), bv(true))];
    assert!(matches!(draft_rule().applies(&meta), Ok(false)));
}

#[test]
fn rule_skips_when_condition_field_missing() {
    assert!(matches!(draft_rule().applies(&Vec::new()), Ok(false)));
}

#[test]
fn rule_errors_on_type_mismatch_in_condition() {
    let meta = vec![("draft".to_string(), sv("false"))];
    assert!(matches!(
        draft_rule().applies(&meta),
        Err(ValidationError::RuleConditionFailed { .. })
    ));
}

#[test]
fn nested_condition_paths() {
    let rule = ValidationRule {
        condition: vec![("author.team".into(), sv("core"))],
        action: RuleAction { required: None, fields: None },
    };
    let nested = vec![("author".to_string(), table(vec![("team", sv("core"))]))];
    assert!(matches!(rule.applies(&nested), Ok(true)));
    assert!(matches!(rule.applies(&Vec::new()), Ok(false)));

    let array = vec![(
        "authors".to_string(),
        arr(vec![table(vec![("role", sv("maintainer"))])]),
    )];
    let array_rule = ValidationRule {
        condition: vec![("authors[0].role".into(), sv("maintainer"))],
        action: RuleAction { required: None, fields: None },
    };
    assert!(matches!(array_rule.applies(&array), Ok(true)));
}

// FieldDefinition::Object

fn flat_object_schema() -> FieldDefinition {
    FieldDefinition::Object {
        schema: vec![("name".into(), plain_string()), ("email".into(), plain_string())],
    }
}

#[test]
fn object_valid_flat() {
    let t = table(vec![("name", sv("Alice")), ("email", sv("alice@example.com"))]);
    assert!(flat_object_schema().validate(&t, "author").is_ok());
}

#[test]
fn object_partial_fields_ok() {
    let t = table(vec![("name", sv("Alice"))]);
    assert!(flat_object_schema().validate(&t, "author").is_ok());
}

#[test]
fn object_empty_ok() {
    let t = table(vec![]);
    assert!(flat_object_schema().validate(&t, "author").is_ok());
}

#[test]
fn object_child_type_mismatch() {
    let t = table(vec![("name", iv(42))]);
    let err = flat_object_schema().validate(&t, "author").unwrap_err();
    assert!(matches!(err, ValidationError::TypeMismatch { .. }));
}

#[test]
fn object_wrong_type_errors() {
    let err = flat_object_schema().validate(&sv("not an object"), "author").unwrap_err();
    assert!(matches!(err, ValidationError::TypeMismatch { .. }));
}

// FieldDefinition::Integer

#[test]
fn integer_valid() {
    let def = FieldDefinition::Integer { min: None, max: None };
    assert!(def.validate(&iv(42), "count").is_ok());
}

#[test]
fn integer_within_range_ok() {
    let def = FieldDefinition::Integer { min: Some(1), max: Some(100) };
    assert!(def.validate(&iv(50), "count").is_ok());
}

#[test]
fn integer_below_min() {
    let def = FieldDefinition::Integer { min: Some(10), max: None };
    let err = def.validate(&iv(5), "count").unwrap_err();
    assert!(matches!(err, ValidationError::ConstraintViolation { .. }));
}

#[test]
fn integer_above_max() {
    let def = FieldDefinition::Integer { min: None, max: Some(10) };
    let err = def.validate(&iv(42), "count").unwrap_err();
    assert!(matches!(err, ValidationError::ConstraintViolation { .. }));
}

#[test]
fn integer_wrong_type_errors() {
    let def = FieldDefinition::Integer { min: None, max: None };
    let err = def.validate(&sv("42"), "count").unwrap_err();
    assert!(matches!(err, ValidationError::TypeMismatch { .. }));
}

// FieldDefinition::Float

#[test]
fn float_valid() {
    let def = FieldDefinition::Float { min: None, max: None };
    assert!(def.validate(&fv(std::f64::consts::PI), "pi").is_ok());
}

#[test]
fn float_within_range_ok() {
    let def = FieldDefinition::Float { min: bound(0.0), max: bound(1.0) };
    assert!(def.validate(&fv(0.5), "pct").is_ok());
}

#[test]
fn float_below_min() {
    let def = FieldDefinition::Float { min: bound(0.0), max: None };
    let err = def.validate(&fv(-1.0), "pct").unwrap_err();
    assert!(matches!(err, ValidationError::ConstraintViolation { .. }));
}

#[test]
fn float_above_max() {
    let def = FieldDefinition::Float { min: None, max: bound(1.0) };
    let err = def.validate(&fv(42.0), "pct").unwrap_err();
    assert!(matches!(err, ValidationError::ConstraintViolation { .. }));
}

#[test]
fn float_wrong_type_errors() {
    let def = FieldDefinition::Float { min: None, max: None };
    let err = def.validate(&sv("3.14"), "pi").unwrap_err();
    assert!(matches!(err, ValidationError::TypeMismatch { .. }));
}

// Further cases

#[test]
fn error_codes_and_urls() {
    let e = ValidationError::MissingField { field: "title".into(), span: None };
    assert_eq!(e.code(), "norgolith::schema::missing_field");
    assert!(e.url().ends_with("#norgolith-schema-missing-field"));
    assert!(!e.is_warning());
    assert_eq!(e.message(), "Missing field 'title'");
    let w = ValidationError::UnknownField { field: "Titel".into(), suggested: Some("title".into()), span: None };
    assert!(w.is_warning());
    assert_eq!(w.code(), "norgolith::schema::unknown_field");
}

#[test]
fn validation_errors_headline_counts_errors() {
    let errs = ValidationErrors(vec![
        ValidationError::MissingField { field: "a".into(), span: None },
        ValidationError::MissingField { field: "b".into(), span: None },
    ]);
    assert_eq!(errs.message(), "Schema validation failed (2 errors)");
}

#[test]
fn get_path_walks_tables_and_arrays() {
    let md = vec![
        ("author".to_string(), table(vec![("name", sv("Alice"))])),
        ("tags".to_string(), str_array(&["a", "b"])),
    ];
    assert!(matches!(&get_path(&md, "author.name").unwrap().data, MetaData::String(s) if s == "Alice"));
    assert!(matches!(&get_path(&md, "tags[1]").unwrap().data, MetaData::String(s) if s == "b"));
    assert!(get_path(&md, "tags[2]").is_none());
    assert!(get_path(&md, "missing").is_none());
}

#[test]
fn split_index_reads_bracket_suffix() {
    assert_eq!(split_index("authors[0]"), ("authors".to_string(), Some(0)));
    assert_eq!(split_index("plain"), ("plain".to_string(), None));
}

#[test]
fn string_min_length_violation() {
    let def = FieldDefinition::String { min_length: Some(10), max_length: None, pattern: None };
    let err = def.validate(&sv("short"), "title").unwrap_err();
    assert!(matches!(err, ValidationError::ConstraintViolation { .. }));
}

#[test]
fn config_requires_definitions_for_required_fields() {
    let mut s = bare_schema(&["title", "author"]);
    s.fields.push(("title".into(), plain_string()));
    let errs = s.validate_config();
    assert_eq!(errs.len(), 1);
    assert!(errs[0].contains("author"));
}

#[test]
fn content_paths_for_schema_matching() {
    assert_eq!(content_path_of("blog\\post.norg"), "blog/post");
    assert_eq!(content_path_of("a.norg.norg"), "a");
    assert_eq!(content_path_of("notes.txt"), "notes.txt");
    assert_eq!(matched_schema_path("blog/2025/post", 1), "");
    assert_eq!(matched_schema_path("blog/2025/post", 3), "blog/2025");
    assert_eq!(matched_schema_path("blog", 5), "blog");
    assert_eq!(schema_source_name("content/a.norg", ""), "content/a.norg");
    assert_eq!(schema_source_name("content/a.norg", "blog"), "content/a.norg (schema: 'blog')");
}

#[test]
fn missing_condition_fields_are_reported_up_to_a_mismatch() {
    let rule = ValidationRule {
        condition: vec![
            ("draft".to_string(), bv(false)),
            ("kind".to_string(), sv("post")),
            ("level".to_string(), iv(1)),
            ("tag".to_string(), sv("x")),
        ],
        action: RuleAction { required: None, fields: None },
    };
    let md = vec![("kind".to_string(), sv("post"))];
    assert_eq!(rule.missing_condition_fields(&md), vec!["draft", "level", "tag"]);
    assert!(matches!(rule.applies(&md), Ok(false)));
    let md2 = vec![("kind".to_string(), iv(3))];
    assert_eq!(rule.missing_condition_fields(&md2), vec!["draft"]);
    assert!(rule.applies(&md2).is_err());
}
