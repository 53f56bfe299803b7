use norgolith::posts::{
    backlink_page, category_strings, post_rel_paths, precompute_collection_subsets, collect_all_posts_categories, created_order, draft_or_false, field,
    finish_extracted_metadata, finish_loaded_metadata, insert_field, normalize_categories,
    normalize_datetimes, page_draft, page_permalink, post_date, posts_in_category,
    posts_with_category, sitemap_urls, sort_posts_by_created, string_value,
};
use norgolith::schema::{MetaData, MetaValue};

fn sv(s: &str) -> MetaValue {
    MetaValue { data: MetaData::String(s.to_string()), text: format!("{:?}", s) }
}

fn table(entries: Vec<(&str, MetaValue)>) -> MetaValue {
    MetaValue {
        data: MetaData::Table(entries.into_iter().map(|(k, v)| (k.to_string(), v)).collect()),
        text: String::new(),
    }
}

fn cats(items: &[&str]) -> MetaValue {
    MetaValue { data: MetaData::Array(items.iter().map(|s| sv(s)).collect()), text: String::new() }
}

fn str_of(v: Option<&MetaValue>) -> Option<String> {
    match v.map(|v| &v.data) {
        Some(MetaData::String(s)) => Some(s.clone()),
        _ => None,
    }
}

#[test]
fn categories_are_collected_once() {
    let posts = vec![
        table(vec![("categories", cats(&[" Rust ", "web"]))]),
        table(vec![("categories", cats(&["rust", "Go"]))]),
        table(vec![("title", sv("no categories"))]),
        sv("not a table"),
    ];
    assert_eq!(collect_all_posts_categories(&posts), vec!["rust", "web", "go"]);
    assert_eq!(category_strings(&posts[0]), vec![" Rust ", "web"]);
    assert!(category_strings(&posts[3]).is_empty());
    assert_eq!(posts_in_category(&posts, "Rust"), vec![0]);
    assert_eq!(posts_with_category(&posts, "rust"), vec![1]);
    assert!(posts_with_category(&posts, "Rust").is_empty());
}

#[test]
fn drafts_and_permalinks() {
    let draft = table(vec![("draft", MetaValue { data: MetaData::Boolean(true), text: "true".into() })]);
    let wrong = table(vec![("draft", sv("yes"))]);
    let none = table(vec![("permalink", sv("/a/"))]);
    assert_eq!(page_draft(&draft, "p.norg"), Ok(true));
    assert_eq!(page_draft(&none, "p.norg"), Ok(false));
    assert_eq!(page_draft(&wrong, "p.norg"), Err("'draft' field must be a boolean for 'p.norg'".to_string()));
    assert!(draft_or_false(&draft));
    assert!(!draft_or_false(&wrong));
    assert_eq!(page_permalink(&none), "/a/");
    assert_eq!(page_permalink(&draft), "/");
}

#[test]
fn sitemap_lists_pages_categories_and_feeds() {
    let posts = vec![
        table(vec![("permalink", sv("/a/")), ("created", sv("2024-01-01")), ("updated", sv("2024-02-02"))]),
        table(vec![("permalink", sv("/b/")), ("created", sv("2023-05-05"))]),
        table(vec![("permalink", sv("/a/")), ("created", sv("2025-01-01"))]),
    ];
    assert_eq!(post_date(&posts[0]), Some(("/a/".to_string(), "2024-02-02".to_string())));
    let urls = sitemap_urls(
        &vec!["/a/".to_string(), "/c/".to_string()],
        &posts,
        &vec!["rust".to_string()],
        "categories",
        &vec!["rss.xml".to_string()],
    );
    let got: Vec<(String, Option<String>)> = urls.into_iter().map(|u| (u.loc, u.lastmod)).collect();
    assert_eq!(
        got,
        vec![
            ("/".to_string(), None),
            ("/a/".to_string(), Some("2025-01-01".to_string())),
            ("/c/".to_string(), None),
            ("/categories/".to_string(), None),
            ("/categories/rust/".to_string(), None),
            ("/rss.xml".to_string(), None),
        ]
    );
    let no_posts = sitemap_urls(&vec![], &vec![], &vec!["x".to_string()], "c", &vec![]);
    assert_eq!(no_posts.len(), 1);
}

#[test]
fn posts_sort_newest_first_and_stably() {
    let posts = vec![
        table(vec![("created", sv("2024-01-02T00:00:00Z")), ("title", sv("a"))]),
        table(vec![("created", sv("2024-03-01T00:00:00+02:00")), ("title", sv("b"))]),
        table(vec![("created", sv("not a date")), ("title", sv("c"))]),
        table(vec![("created", sv("2024-01-02T00:00:00Z")), ("title", sv("d"))]),
    ];
    assert_eq!(created_order(&posts), vec![1, 0, 3, 2]);
    let sorted = sort_posts_by_created(&posts);
    let titles: Vec<String> = sorted.iter().map(|p| str_of(field(p, "title")).unwrap()).collect();
    assert_eq!(titles, vec!["b", "a", "d", "c"]);
}

#[test]
fn loaded_metadata_is_completed() {
    let mut md = table(vec![
        ("created", MetaValue { data: MetaData::Datetime("2024-01-01".into()), text: "2024-01-01".into() }),
        ("categories", cats(&[" a ", "b"])),
    ]);
    finish_loaded_metadata(&mut md, "<p>x</p>", "blog/post.norg", "");
    assert_eq!(str_of(field(&md, "created")), Some("2024-01-01".to_string()));
    assert_eq!(category_strings(&md), vec!["a", "b"]);
    assert_eq!(str_of(field(&md, "raw")), Some("<p>x</p>".to_string()));
    assert_eq!(str_of(field(&md, "permalink")), Some("/blog/post/".to_string()));
    assert_eq!(str_of(field(&md, "rel_path")), Some("blog/post.norg".to_string()));
    assert_eq!(field(&md, "raw").unwrap().text, "\"<p>x</p>\"");

    let mut ex = table(vec![("permalink", sv("old"))]);
    finish_extracted_metadata(&mut ex, "index.norg", "/r");
    assert_eq!(str_of(field(&ex, "permalink")), Some("/r/".to_string()));
    match &ex.data {
        MetaData::Table(t) => assert_eq!(t.len(), 1),
        _ => panic!("table expected"),
    }
}

#[test]
fn normalization_of_plain_values_changes_nothing() {
    let mut v = sv("x");
    normalize_datetimes(&mut v);
    normalize_categories(&mut v);
    assert!(matches!(&v.data, MetaData::String(s) if s == "x"));
    let mut t = table(vec![]);
    insert_field(&mut t, "k", string_value("v"));
    assert_eq!(str_of(field(&t, "k")), Some("v".to_string()));
    insert_field(&mut t, "k", string_value("w"));
    assert_eq!(str_of(field(&t, "k")), Some("w".to_string()));
}

#[test]
fn backlink_sources_skip_drafts_categories_and_other_files() {
    let links = vec!["/about".to_string()];
    let draft = table(vec![("draft", MetaValue { data: MetaData::Boolean(true), text: "true".into() })]);
    let titled = table(vec![("title", sv("Hello"))]);
    assert!(backlink_page("posts/a.norg", "categories", Some(&draft), links.clone()).is_none());
    assert!(backlink_page("categories/rust.norg", "categories", None, links.clone()).is_none());
    assert!(backlink_page("notes/a.txt", "categories", None, links.clone()).is_none());
    let p = backlink_page("posts/a.norg", "categories", Some(&titled), links.clone()).unwrap();
    assert_eq!(p.route, "/posts/a");
    assert_eq!(p.title, "Hello");
    assert_eq!(p.links, links);
    let q = backlink_page("docs/index.norg", "categories", None, vec![]).unwrap();
    assert_eq!(q.title, "docs/index");
    assert_eq!(q.route, "/docs");
}

#[test]
fn collection_subsets_follow_rel_paths() {
    let posts = vec![
        table(vec![("rel_path", sv("blog/a.norg"))]),
        table(vec![("rel_path", sv("docs/intro.norg"))]),
        table(vec![("title", sv("no path"))]),
        table(vec![("rel_path", sv("blog"))]),
        table(vec![("rel_path", sv("blogger/x.norg"))]),
    ];
    let cols = vec![("Blog".to_string(), "blog".to_string()), ("Docs".to_string(), "docs".to_string())];
    let r = precompute_collection_subsets(&posts, &cols);
    assert_eq!(r, vec![("Blog".to_string(), vec![0, 3]), ("Docs".to_string(), vec![1])]);
    assert_eq!(post_rel_paths(&posts)[2], None);
}
