use norgolith::dev::{
    preview_url,
    apply_event, asset_path, category_of, collect_actions, content_request_path, feed_template,
    inject_livereload_script, internal_error_body, plain_error, reload_steps, rewrite_urls,
    route_request, status_class, DevRoute, FileActions, FileEvent, ReloadStep, StatusClass,
};

#[test]
fn requests_are_routed() {
    assert_eq!(route_request("/livereload.js", "categories"), DevRoute::LiveReloadScript);
    assert_eq!(route_request("/categories", "categories"), DevRoute::CategoryIndex);
    assert_eq!(route_request("/categories/rust", "categories"), DevRoute::Category);
    assert_eq!(route_request("/assets/a.css", "categories"), DevRoute::Asset);
    assert_eq!(route_request("/rss.xml", "categories"), DevRoute::XmlFeed);
    assert_eq!(route_request("/blog/post", "categories"), DevRoute::Content);
}

#[test]
fn request_paths_are_trimmed() {
    assert_eq!(asset_path("/assets/css/a.css"), "css/a.css");
    assert_eq!(feed_template("//rss.xml"), "rss.xml");
    assert_eq!(content_request_path("/blog/post/"), "blog/post");
    assert_eq!(category_of("/categories/rust", "categories"), "rust");
    assert_eq!(category_of("/other", "categories"), "/other");
}

#[test]
fn livereload_script_goes_before_last_body_close() {
    let mut html = "<html><body><p>x</p></body></html>".to_string();
    inject_livereload_script(&mut html);
    assert_eq!(
        html,
        "<html><body><p>x</p><script src=\"/livereload.js?port=35729&amp;mindelay=10\"></script></body></html>"
    );
    let mut plain = "no body".to_string();
    inject_livereload_script(&mut plain);
    assert_eq!(plain, "no body");
}

#[test]
fn root_urls_are_rewritten() {
    let body = "<a href=\"https:&#x2F;&#x2F;example.com/x\">".to_string();
    assert_eq!(
        rewrite_urls(body, "https://example.com", "http://localhost:3030"),
        "<a href=\"http://localhost:3030/x\">"
    );
}

#[test]
fn error_bodies_drop_bold_codes() {
    assert_eq!(plain_error("\x1b[1mBad\x1b[0m thing"), "Bad thing");
    assert_eq!(internal_error_body("\x1b[1mBad\x1b[0m"), "500 Internal Server Error\n\nBad");
}

#[test]
fn status_classes() {
    assert_eq!(status_class(200), StatusClass::Success);
    assert_eq!(status_class(304), StatusClass::Redirect);
    assert_eq!(status_class(404), StatusClass::ClientError);
    assert_eq!(status_class(500), StatusClass::ServerError);
    assert_eq!(status_class(100), StatusClass::ServerError);
}

fn event(path: &str) -> FileEvent {
    FileEvent {
        relevant: true,
        path: path.to_string(),
        is_config: false,
        in_templates_tree: false,
        in_assets_tree: false,
        in_content_tree: false,
        under_theme_templates: false,
        under_templates: false,
        under_theme_assets: false,
        under_assets: false,
        under_content: false,
    }
}

#[test]
fn file_events_become_actions() {
    let mut t = event("/site/templates/base.html");
    t.in_templates_tree = true;
    t.under_templates = true;
    let a = apply_event(FileActions::none(), &t);
    assert!(a.reload_templates && !a.reload_assets && !a.reload_content && !a.reload_config);

    let mut backup = event("/site/content/a.norg~");
    backup.in_content_tree = true;
    backup.under_content = true;
    assert_eq!(apply_event(FileActions::none(), &backup), FileActions::none());

    let mut cfg = event("/site/norgolith.toml");
    cfg.is_config = true;
    let mut c = event("/site/content/a.norg");
    c.in_content_tree = true;
    c.under_content = true;
    let all = collect_actions(&vec![cfg, c]);
    assert!(all.reload_config && all.reload_content);

    let mut irrelevant = event("/site/content/b.norg");
    irrelevant.relevant = false;
    irrelevant.in_content_tree = true;
    irrelevant.under_content = true;
    assert_eq!(collect_actions(&vec![irrelevant]), FileActions::none());
}

#[test]
fn reload_plans() {
    let mut a = FileActions::none();
    a.reload_config = true;
    a.reload_assets = true;
    assert_eq!(reload_steps(a), vec![ReloadStep::ReloadConfig, ReloadStep::RebuildPages]);
    let mut b = FileActions::none();
    b.reload_assets = true;
    b.reload_templates = true;
    b.reload_content = true;
    assert_eq!(
        reload_steps(b),
        vec![
            ReloadStep::SendReload,
            ReloadStep::ReloadTemplates,
            ReloadStep::RecollectPosts,
            ReloadStep::RebuildPages,
            ReloadStep::SendReload
        ]
    );
    assert!(reload_steps(FileActions::none()).is_empty());
}

#[test]
fn preview_addresses() {
    assert_eq!(preview_url(false, "192.168.1.2", 3030), "http://localhost:3030");
    assert_eq!(preview_url(true, "192.168.1.2", 8080), "http://192.168.1.2:8080");
}

#[test]
fn preview_renders_pages_categories_and_feeds() {
    let files = vec![
        ("index.norg".to_string(), false),
        ("posts/a.norg".to_string(), false),
        ("posts/draft.norg".to_string(), true),
        ("notes.txt".to_string(), false),
    ];
    let cats = vec!["rust".to_string(), "web".to_string()];
    let templates = vec!["base.html".to_string(), "rss.xml".to_string()];
    let keys = norgolith::dev::preview_page_keys(&files, "categories", &cats, &templates, true);
    assert_eq!(
        keys,
        vec!["/index", "/posts/a", "/categories", "/categories/rust", "/categories/web", "/rss.xml"]
    );
    let none = norgolith::dev::preview_page_keys(&files, "categories", &cats, &templates, false);
    assert_eq!(none, vec!["/index", "/posts/a", "/rss.xml"]);
}
