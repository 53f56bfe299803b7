use norgolith::toc::{generate_toc, parse_toc, percent_encode_unreserved, TocEntry, TocValue};

fn entry(level: i64, title: &str, id: &str) -> TocEntry {
    TocEntry::Fields { level: Some(level), title: Some(title.to_string()), id: Some(id.to_string()) }
}

#[test]
fn toc_nests_headings_by_level() {
    let v = TocValue::Entries(vec![entry(1, "A", "a"), entry(2, "B", "b"), entry(1, "C", "c")]);
    let html = generate_toc(&v, None).unwrap();
    assert_eq!(
        html,
        "<ol><li><a href=\"#a\">A</a><ol><li><a href=\"#b\">B</a></li></ol></li><li><a href=\"#c\">C</a></li></ol>"
    );
}

#[test]
fn toc_list_type_and_escaping() {
    let v = TocValue::Entries(vec![entry(1, "A & <B>", "a b")]);
    let html = generate_toc(&v, Some("ul")).unwrap();
    assert_eq!(html, "<ul><li><a href=\"#a%20b\">A &amp; &lt;B&gt;</a></li></ul>");
}

#[test]
fn toc_errors() {
    assert_eq!(generate_toc(&TocValue::NotArray, None).unwrap_err(), "TOC must be an array");
    assert_eq!(
        generate_toc(&TocValue::Entries(vec![TocEntry::NotMap]), None).unwrap_err(),
        "TOC entry must be a map"
    );
    let no_level = TocEntry::Fields { level: None, title: None, id: None };
    assert_eq!(
        generate_toc(&TocValue::Entries(vec![no_level]), None).unwrap_err(),
        "Missing or invalid level"
    );
}

#[test]
fn toc_tree_shape() {
    let v = TocValue::Entries(vec![entry(2, "x", "x"), entry(3, "y", "y"), entry(1, "z", "z"), entry(3, "w", "w")]);
    let t = parse_toc(&v).unwrap();
    assert_eq!(t.nodes.len(), 4);
    assert_eq!(t.root_indices, vec![0, 2]);
    assert_eq!(t.nodes[0].children, vec![1]);
    assert_eq!(t.nodes[2].children, vec![3]);
    assert_eq!(t.nodes[3].level, 3);
}

#[test]
fn missing_title_and_id_are_empty() {
    let v = TocValue::Entries(vec![TocEntry::Fields { level: Some(1), title: None, id: None }]);
    assert_eq!(generate_toc(&v, None).unwrap(), "<ol><li><a href=\"#\"></a></li></ol>");
}

#[test]
fn percent_encoding_keeps_unreserved() {
    assert_eq!(percent_encode_unreserved("aZ9-_.~"), "aZ9-_.~");
    assert_eq!(percent_encode_unreserved("a b/é"), "a%20b%2F%C3%A9");
}
