use norgolith::site::{
    asset_treatment, AssetTreatment, collect_xml_templates,
    absolutize_hrefs, collection_members, compute_permalink, determine_public_path,
    error_page_names, fingerprinted_path, is_post, kept_in_public, seo_outputs, validates_during_build, is_rss_template, page_template, page_url_path,
    should_fingerprint_asset, xml_templates, SitePaths,
};

#[test]
fn site_paths_under_root() {
    let p = SitePaths::new("/site");
    assert_eq!(p.public, "/site/public");
    assert_eq!(p.config_file, "/site/norgolith.toml");
    assert_eq!(p.content, "/site/content");
    assert_eq!(p.assets, "/site/assets");
    assert_eq!(p.templates, "/site/templates");
    assert_eq!(p.theme_assets, "/site/theme/assets");
    assert_eq!(p.theme_templates, "/site/theme/templates");
}

#[test]
fn public_paths_of_pages() {
    assert_eq!(determine_public_path("public", "blog/post.norg").unwrap(), "public/blog/post/index.html");
    assert_eq!(determine_public_path("public", "blog/index.norg").unwrap(), "public/blog/index.html");
    assert_eq!(determine_public_path("public", "about.norg").unwrap(), "public/about/index.html");
    assert_eq!(determine_public_path("public", "").unwrap_err(), "Invalid file stem for path: ");
}

#[test]
fn permalinks_of_pages() {
    assert_eq!(compute_permalink("blog/post.norg", ""), "/blog/post/");
    assert_eq!(compute_permalink("index.norg", ""), "/");
    assert_eq!(compute_permalink("blog/index.norg", "http://localhost:3030"), "http://localhost:3030/blog/");
    assert_eq!(page_url_path("blog/post.norg"), "/blog/post");
}

#[test]
fn templates_of_layouts() {
    assert_eq!(page_template(Some("post")), "post.html");
    assert_eq!(page_template(None), "default.html");
}

#[test]
fn hrefs_become_absolute() {
    assert_eq!(
        absolutize_hrefs("<a href=\"/x\"><a href=\"&#x2F;y\"><a href=\"z\">", "https://e.com"),
        "<a href=\"https://e.com/x\"><a href=\"https://e.com/y\"><a href=\"z\">"
    );
}

#[test]
fn assets_are_fingerprinted() {
    assert!(should_fingerprint_asset("js/app.js"));
    assert!(should_fingerprint_asset("style.css"));
    assert!(!should_fingerprint_asset("img/logo.png"));
    let content = b"body{}";
    let hex = blake3::hash(content).to_hex().to_string();
    assert_eq!(fingerprinted_path("css/style.css", content), format!("css/style.{}.css", &hex[..8]));
    assert_ne!(fingerprinted_path("css/style.css", content), "css/style.css");
}

#[test]
fn collections_gather_their_posts() {
    let rel = vec![
        Some("blog/a.norg".to_string()),
        None,
        Some("blog/sub/b.norg".to_string()),
        Some("blogger/c.norg".to_string()),
        Some("blog".to_string()),
    ];
    let cols = vec![("posts".to_string(), "blog".to_string()), ("none".to_string(), "x".to_string())];
    let m = collection_members(&rel, &cols);
    assert_eq!(m.len(), 2);
    assert_eq!(m[0].0, "posts");
    assert_eq!(m[0].1, vec![0, 2, 4]);
    assert!(m[1].1.is_empty());
}

#[test]
fn posts_are_recognised() {
    let dirs = vec!["blog".to_string()];
    assert!(is_post("blog/a.norg", &dirs));
    assert!(!is_post("blog/index.norg", &dirs));
    assert!(!is_post("blog/a.txt", &dirs));
    assert!(!is_post("other/a.norg", &dirs));
    assert!(!is_post("blogger/a.norg", &dirs));
}

#[test]
fn feeds_and_error_pages() {
    let names = vec!["rss.xml".to_string(), "base.html".to_string(), "atom.xml".to_string(), "404.html".to_string()];
    assert_eq!(xml_templates(&names), vec!["rss.xml".to_string(), "atom.xml".to_string()]);
    assert!(is_rss_template("feeds/rss.xml"));
    assert!(!is_rss_template("atom.xml"));
    assert!(!is_rss_template("rss.html"));
    assert_eq!(error_page_names(&names), vec!["404.html".to_string()]);
    let both = vec!["500.html".to_string(), "404.html".to_string()];
    assert_eq!(error_page_names(&both), vec!["404.html".to_string(), "500.html".to_string()]);
}

#[test]
fn assets_are_treated_by_kind() {
    assert_eq!(asset_treatment("a.js", true, true), AssetTreatment::MinifyJs);
    assert_eq!(asset_treatment("a.css", true, true), AssetTreatment::MinifyCss);
    assert_eq!(asset_treatment("a.css", true, false), AssetTreatment::Fingerprint);
    assert_eq!(asset_treatment("a.css", false, true), AssetTreatment::Copy);
    assert_eq!(asset_treatment("a.png", true, true), AssetTreatment::Copy);
}

#[test]
fn only_git_metadata_survives_cleaning() {
    assert!(kept_in_public("/site/public/.git"));
    assert!(kept_in_public(".git"));
    assert!(!kept_in_public("/site/public/index.html"));
    assert!(!kept_in_public("/site/public/.github"));
    assert!(!kept_in_public("/site/public/git"));
}

#[test]
fn feed_templates_are_the_xml_ones() {
    let mut tera = tera::Tera::default();
    tera.add_raw_template("base.html", "<p>{{ 1 }}</p>").unwrap();
    tera.add_raw_template("rss.xml", "<rss></rss>").unwrap();
    tera.add_raw_template("atom.xml", "<feed></feed>").unwrap();
    tera.add_raw_template("xml.txt", "x").unwrap();
    let mut names = collect_xml_templates(&tera);
    names.sort();
    assert_eq!(names, vec!["atom.xml".to_string(), "rss.xml".to_string()]);
}

#[test]
fn schema_validation_skips_category_pages() {
    assert!(validates_during_build(true, "posts/a.norg", "categories"));
    assert!(!validates_during_build(true, "categories/rust.norg", "categories"));
    assert!(!validates_during_build(false, "posts/a.norg", "categories"));
    assert!(validates_during_build(true, "categories-old/a.norg", "categories"));
}

#[test]
fn seo_files_follow_the_config_tables() {
    let none = seo_outputs(None, None);
    assert!(!none.sitemap && !none.robots);
    let seo = seo_outputs(Some(true), None);
    assert!(seo.sitemap && !seo.robots && seo.robots_names_sitemap);
    let no_map = seo_outputs(Some(false), Some(true));
    assert!(!no_map.sitemap && no_map.robots && !no_map.robots_names_sitemap);
    let robots_only = seo_outputs(None, Some(true));
    assert!(robots_only.sitemap && robots_only.robots && robots_only.robots_names_sitemap);
    let robots_off = seo_outputs(None, Some(false));
    assert!(robots_off.sitemap && !robots_off.robots);
}
