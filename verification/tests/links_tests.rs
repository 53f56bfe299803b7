use std::hash::{Hash, Hasher};
use norgolith::links::{signature, Backlink};
use norgolith::links::{internal_routes, DocLink};
use norgolith::links::{
    canonical_route, invert_links, link_route, permalink_for, route_for, strip_meta_block,
    LinkTarget, PageLinks,
};

#[test]
fn canonical_route_folds_index_and_slashes() {
    assert_eq!(route_for("blog/my-post"), "/blog/my-post");
    assert_eq!(route_for("blog/index"), "/blog");
    assert_eq!(route_for("index"), "");
    assert_eq!(canonical_route("blog/"), "/blog");
    assert_eq!(canonical_route("/blog"), "/blog");
}

#[test]
fn build_map_inverts_and_skips_self() {
    let route = route_for("a");
    assert_ne!(route, route_for("b"));
    let pages = vec![
        PageLinks { route: "/a".into(), title: "A".into(), links: vec!["/b".into(), "/a".into()] },
        PageLinks { route: "/c".into(), title: "C".into(), links: vec!["/b".into()] },
    ];
    let map = invert_links(&pages, "");
    assert_eq!(map.len(), 1);
    assert_eq!(map[0].0, "/b");
    assert_eq!(map[0].1.len(), 2);
    assert_eq!(map[0].1[0].title, "A");
    assert_eq!(map[0].1[0].url, "/a/");
    assert_eq!(map[0].1[1].title, "C");
}

#[test]
fn permalinks_of_routes() {
    assert_eq!(permalink_for("", ""), "/");
    assert_eq!(permalink_for("/site", "/blog"), "/site/blog/");
}

#[test]
fn meta_block_is_stripped_from_documents() {
    assert_eq!(strip_meta_block("@document.meta\ntitle: T\n@end\nbody"), "body");
    assert_eq!(strip_meta_block("no meta here"), "no meta here");
    assert_eq!(strip_meta_block("@document.meta\nunterminated"), "@document.meta\nunterminated");
}

#[test]
fn link_targets_become_routes() {
    assert_eq!(link_route(&None, &vec![LinkTarget::Path("/blog/a".into())]), Some("/blog/a".to_string()));
    assert_eq!(link_route(&None, &vec![LinkTarget::Path("/b.norg".into())]), Some("/b".to_string()));
    assert_eq!(link_route(&None, &vec![LinkTarget::Path("https://x.y".into())]), None);
    assert_eq!(link_route(&None, &vec![LinkTarget::Path("#frag".into())]), None);
    assert_eq!(link_route(&None, &vec![LinkTarget::Url]), None);
    assert_eq!(link_route(&None, &vec![LinkTarget::Other]), None);
    assert_eq!(link_route(&Some("docs/index.norg".into()), &vec![]), Some("/docs".to_string()));
}

#[test]
fn internal_routes_are_sorted_and_distinct() {
    let links = vec![
        DocLink { filepath: None, targets: vec![LinkTarget::Path("/blog/a".into())] },
        DocLink { filepath: None, targets: vec![LinkTarget::Path("/b.norg".into())] },
        DocLink { filepath: Some("https".into()), targets: vec![LinkTarget::Url] },
        DocLink { filepath: None, targets: vec![LinkTarget::Path("/blog/a#part".into())] },
        DocLink { filepath: None, targets: vec![LinkTarget::Other] },
    ];
    assert_eq!(internal_routes(&links), vec!["/b".to_string(), "/blog/a".to_string()]);
    let anchors = vec![DocLink { filepath: None, targets: vec![LinkTarget::Path("#frag".into())] }];
    assert!(internal_routes(&anchors).is_empty());
}

#[test]
fn signature_hashes_urls_and_titles() {
    assert_eq!(signature(&vec![]), None);
    let links = vec![
        Backlink { url: "/a/".into(), title: "A".into() },
        Backlink { url: "/b/".into(), title: "Bé".into() },
    ];
    let mut h = std::collections::hash_map::DefaultHasher::new();
    for l in &links {
        l.url.hash(&mut h);
        l.title.hash(&mut h);
    }
    assert_eq!(signature(&links), Some(h.finish()));
    let other = vec![Backlink { url: "/a/".into(), title: "B".into() }];
    assert_ne!(signature(&links), signature(&other));
}

// The links below are those that the Norg parser reads from
// "@document.meta\ntitle: T\n@end\n\n# Heading\n\nSome {:/blog/a:} and {:/b.norg:} links.\n\nExternal {:https://x.y:} skipped.\n":
// two file links and one URL (split into a `https` file part and a URL target).
#[test]
fn extracts_internal_links_only() {
    let links = vec![
        DocLink { filepath: Some("/blog/a".into()), targets: vec![] },
        DocLink { filepath: Some("/b.norg".into()), targets: vec![] },
        DocLink { filepath: Some("https".into()), targets: vec![LinkTarget::Url] },
    ];
    assert_eq!(internal_routes(&links), vec!["/b", "/blog/a"]);
}

// "See {* Some Heading *} and {:#frag:}": a heading target (a same-page
// anchor) and a fragment-only file link.
#[test]
fn ignores_fragments_and_headed_links() {
    let links = vec![
        DocLink { filepath: None, targets: vec![LinkTarget::Other] },
        DocLink { filepath: Some("#frag".into()), targets: vec![] },
    ];
    assert!(internal_routes(&links).is_empty());
}
