//! Site layout and build decisions: directory paths, output paths,
//! permalinks, asset fingerprints, collections and categories.
use vstd::prelude::*;

use crate::paths::{
    extension, file_name, file_stem, join, parent, path_eq, path_extension, path_file_name,
    path_file_stem, path_join, path_parent, path_starts_with, path_with_extension,
    path_with_file_name, same_path, starts_with as path_starts_with_exec, with_extension,
    with_file_name,
};
use crate::pattern::{regex_replace_all, regex_replaced, regex_valid};
use crate::schema::strings_view;
use crate::text::{contains_seq, ends_with, str_contains, str_ends_with};
use crate::text::{str_equal, string_from_chars};

verus! {

// ---------------------------------------------------------------------
// Directories
// ---------------------------------------------------------------------

/// The directories of a site.
pub struct SitePaths {
    pub public: String,
    pub config_file: String,
    pub content: String,
    pub assets: String,
    pub templates: String,
    pub theme_assets: String,
    pub theme_templates: String,
}

impl SitePaths {
    /// The directories of the site whose root (holding `norgolith.toml`) is
    /// `root`.
    pub fn new(root: &str) -> (r: SitePaths)
        ensures
            r.public@ == path_join(root@, "public"@),
            r.config_file@ == path_join(root@, "norgolith.toml"@),
            r.content@ == path_join(root@, "content"@),
            r.assets@ == path_join(root@, "assets"@),
            r.templates@ == path_join(root@, "templates"@),
            r.theme_assets@ == path_join(root@, "theme/assets"@),
            r.theme_templates@ == path_join(root@, "theme/templates"@),
    {
        SitePaths {
            public: join(root, "public"),
            config_file: join(root, "norgolith.toml"),
            content: join(root, "content"),
            assets: join(root, "assets"),
            templates: join(root, "templates"),
            theme_assets: join(root, "theme/assets"),
            theme_templates: join(root, "theme/templates"),
        }
    }
}

// ---------------------------------------------------------------------
// Output paths and permalinks
// ---------------------------------------------------------------------

/// Where the page of content file `rel` is written under `public`: an
/// `index` page keeps its place with extension `html`; any other page
/// becomes `<stem>/index.html` beside it.
pub open spec fn public_path_spec(public: Seq<char>, rel: Seq<char>) -> Result<Seq<char>, Seq<char>> {
    match path_file_stem(rel) {
        None => Err("Invalid file stem for path: "@ + rel),
        Some(stem) => if stem == "index"@ {
            Ok(path_with_extension(path_join(public, rel), "html"@))
        } else {
            let dir = match path_parent(rel) {
                Some(p) => p,
                None => seq![],
            };
            Ok(path_join(path_join(path_join(public, dir), stem), "index.html"@))
        },
    }
}

pub open spec fn result_view(r: Result<String, String>) -> Result<Seq<char>, Seq<char>> {
    match r {
        Ok(x) => Ok(x@),
        Err(e) => Err(e@),
    }
}

/// Output path of a content page (see [`public_path_spec`]).
pub fn determine_public_path(public_dir: &str, rel_path: &str) -> (r: Result<String, String>)
    ensures
        result_view(r) == public_path_spec(public_dir@, rel_path@),
{
    let stem = match file_stem(rel_path) {
        Some(s) => s,
        None => {
            let mut m = String::from_str("Invalid file stem for path: ");
            m.append(rel_path);
            return Err(m);
        },
    };
    if str_equal(stem.as_str(), "index") {
        let joined = join(public_dir, rel_path);
        proof {
            reveal_strlit("html");
            assert(!"html"@.contains('/')) by {
                if "html"@.contains('/') {
                    let k = choose|k: int| 0 <= k < "html"@.len() && "html"@[k] == '/';
                }
            }
        }
        Ok(with_extension(joined.as_str(), "html"))
    } else {
        let dir = match parent(rel_path) {
            Some(p) => p,
            None => String::new(),
        };
        let a = join(public_dir, dir.as_str());
        let b = join(a.as_str(), stem.as_str());
        Ok(join(b.as_str(), "index.html"))
    }
}

/// Whether an entry found in the public directory before a build stays
/// there: only the git metadata directory `.git` is kept, all else is
/// removed.
pub fn kept_in_public(entry: &str) -> (r: bool)
    ensures
        r == (path_file_name(entry@) == Some(".git"@)),
{
    match file_name(entry) {
        Some(n) => str_equal(n.as_str(), ".git"),
        None => false,
    }
}

/// Whether a page's metadata is checked against the content schema while
/// building: only when a schema is configured, and never for pages under
/// the categories directory.
pub fn validates_during_build(has_schema: bool, rel_path: &str, categories_dir: &str) -> (r: bool)
    ensures
        r == (has_schema && !path_starts_with(rel_path@, categories_dir@)),
{
    has_schema && !path_starts_with_exec(rel_path, categories_dir)
}

/// Which SEO files a build writes.
#[derive(Clone, Copy, Debug, PartialEq, Eq, Structural)]
pub struct SeoOutputs {
    /// `sitemap.xml`.
    pub sitemap: bool,
    /// `robots.txt`.
    pub robots: bool,
    /// Whether `robots.txt` points to the sitemap.
    pub robots_names_sitemap: bool,
}

/// The SEO files of a build, given the `sitemap` switch of the `[seo]`
/// table (when there is one) and the `enable` switch of the `[robots]`
/// table (when there is one): nothing without either table; the sitemap
/// unless `[seo]` turns it off; `robots.txt` when enabled.
pub fn seo_outputs(seo_sitemap: Option<bool>, robots_enable: Option<bool>) -> (r: SeoOutputs)
    ensures
        r.sitemap == ((seo_sitemap is Some || robots_enable is Some) && match seo_sitemap {
            Some(s) => s,
            None => true,
        }),
        r.robots == (robots_enable == Some(true)),
        r.robots_names_sitemap == match seo_sitemap {
            Some(s) => s,
            None => true,
        },
{
    let enabled = seo_sitemap.is_some() || robots_enable.is_some();
    let sitemap_on = match seo_sitemap {
        Some(s) => s,
        None => true,
    };
    let robots = match robots_enable {
        Some(e) => e,
        None => false,
    };
    SeoOutputs { sitemap: enabled && sitemap_on, robots, robots_names_sitemap: sitemap_on }
}

/// Permalink of content file `rel` under the site's base URL: the path
/// without extension, an `index` page standing for its directory, ending
/// in a slash.
pub open spec fn permalink_spec(rel: Seq<char>, routes_url: Seq<char>) -> Seq<char> {
    let p = path_with_extension(rel, seq![]);
    let q = if path_file_name(p) == Some("index"@) {
        match path_parent(p) {
            Some(d) => d,
            None => seq![],
        }
    } else {
        p
    };
    if q.len() == 0 {
        routes_url + "/"@
    } else {
        routes_url + "/"@ + q + "/"@
    }
}

pub fn compute_permalink(rel_path: &str, routes_url: &str) -> (r: String)
    ensures
        r@ == permalink_spec(rel_path@, routes_url@),
{
    proof {
        reveal_strlit("");
    }
    let p = with_extension(rel_path, "");
    proof {
        reveal_strlit("");
        assert(""@ =~= Seq::<char>::empty());
    }
    let is_index = match file_name(p.as_str()) {
        Some(n) => str_equal(n.as_str(), "index"),
        None => false,
    };
    let q = if is_index {
        match parent(p.as_str()) {
            Some(d) => d,
            None => String::new(),
        }
    } else {
        p
    };
    let mut out = String::from_str(routes_url);
    out.append("/");
    if q.as_str().unicode_len() > 0 {
        out.append(q.as_str());
        out.append("/");
    }
    out
}

/// The address of a page in the development server: `/` and its content
/// path without extension.
pub fn page_url_path(rel_path: &str) -> (r: String)
    ensures
        r@ == "/"@ + path_with_extension(rel_path@, seq![]),
{
    proof {
        reveal_strlit("");
    }
    let p = with_extension(rel_path, "");
    proof {
        reveal_strlit("");
        assert(""@ =~= Seq::<char>::empty());
    }
    crate::text::concat2("/", p.as_str())
}

/// Template that renders a page of the given layout (`default` when the
/// page names none).
pub fn page_template(layout: Option<&str>) -> (r: String)
    ensures
        r@ == match layout {
            Some(l) => l@,
            None => "default"@,
        } + ".html"@,
{
    let mut t = match layout {
        Some(l) => String::from_str(l),
        None => String::from_str("default"),
    };
    t.append(".html");
    t
}

// ---------------------------------------------------------------------
// Rendered pages
// ---------------------------------------------------------------------

/// Matches a root-relative link: `href="/` or its escaped form.
pub open spec fn root_href_pattern() -> Seq<char> {
    "href=\"(/|&#x2F;)"@
}

/// Root-relative links of a rendered page made absolute with the site's
/// root URL.
pub fn absolutize_hrefs(rendered: &str, root_url: &str) -> (r: String)
    ensures
        regex_valid(root_href_pattern()) ==> r@ == regex_replaced(
            root_href_pattern(),
            rendered@,
            "href=\""@ + root_url@ + "/"@,
        ),
        !regex_valid(root_href_pattern()) ==> r@ == rendered@,
{
    let mut rep = String::from_str("href=\"");
    rep.append(root_url);
    rep.append("/");
    match regex_replace_all("href=\"(/|&#x2F;)", rendered, rep.as_str()) {
        Some(x) => x,
        None => String::from_str(rendered),
    }
}

// ---------------------------------------------------------------------
// Assets
// ---------------------------------------------------------------------

/// Scripts and stylesheets get fingerprinted names.
pub open spec fn fingerprint_spec(src: Seq<char>) -> bool {
    path_extension(src) == Some("js"@) || path_extension(src) == Some("css"@)
}

pub fn should_fingerprint_asset(src: &str) -> (r: bool)
    ensures
        r == fingerprint_spec(src@),
{
    match extension(src) {
        Some(e) => str_equal(e.as_str(), "js") || str_equal(e.as_str(), "css"),
        None => false,
    }
}

/// How an asset is written to the public directory.
#[derive(Clone, Copy, Debug, PartialEq, Eq, Structural)]
pub enum AssetTreatment {
    /// Copied byte for byte under its own name.
    Copy,
    /// Read as text, written under a fingerprinted name.
    Fingerprint,
    /// Minified as JavaScript, written under a fingerprinted name.
    MinifyJs,
    /// Minified as CSS, written under a fingerprinted name.
    MinifyCss,
}

/// Scripts and stylesheets are fingerprinted when fingerprinting is on, and
/// minified first when minifying is on; everything else is copied.
pub open spec fn asset_treatment_spec(src: Seq<char>, fingerprint: bool, minify: bool) -> AssetTreatment {
    if fingerprint && fingerprint_spec(src) {
        if !minify {
            AssetTreatment::Fingerprint
        } else if path_extension(src) == Some("js"@) {
            AssetTreatment::MinifyJs
        } else {
            AssetTreatment::MinifyCss
        }
    } else {
        AssetTreatment::Copy
    }
}

pub fn asset_treatment(src: &str, fingerprint: bool, minify: bool) -> (r: AssetTreatment)
    ensures
        r == asset_treatment_spec(src@, fingerprint, minify),
{
    if fingerprint && should_fingerprint_asset(src) {
        if !minify {
            AssetTreatment::Fingerprint
        } else {
            let is_js = match extension(src) {
                Some(e) => str_equal(e.as_str(), "js"),
                None => false,
            };
            if is_js {
                AssetTreatment::MinifyJs
            } else {
                AssetTreatment::MinifyCss
            }
        }
    } else {
        AssetTreatment::Copy
    }
}

/// Lower-case hex of the BLAKE3 hash of some bytes.
pub uninterp spec fn blake3_hex_spec(data: Seq<u8>) -> Seq<char>;

/// `blake3::hash(data).to_hex()`. Claimed: depends on the bytes alone and,
/// as the crate documents for a 32-byte hash, is 64 hex characters long.
#[verifier::external_body]
fn blake3_hex(data: &[u8]) -> (r: String)
    ensures
        r@ == blake3_hex_spec(data@),
        r@.len() == 64,
{
    blake3::hash(data).to_hex().to_string()
}

/// Name of a fingerprinted asset: `<stem>.<first 8 hex digits of its
/// hash><.ext>` in place of the file name, `unknown` standing for a missing
/// stem.
pub open spec fn fingerprinted_spec(rel: Seq<char>, content: Seq<u8>) -> Seq<char> {
    let stem = match path_file_stem(rel) {
        Some(s) => s,
        None => "unknown"@,
    };
    let ext = match path_extension(rel) {
        Some(e) => "."@ + e,
        None => seq![],
    };
    path_with_file_name(rel, stem + "."@ + blake3_hex_spec(content).take(8) + ext)
}

/// The fingerprinted relative path of an asset with the given content.
pub fn fingerprinted_path(rel_path: &str, content: &[u8]) -> (r: String)
    ensures
        r@ == fingerprinted_spec(rel_path@, content@),
{
    let hex = blake3_hex(content);
    let hc = crate::text::chars_of(hex.as_str());
    let short = string_from_chars(&hc, 0, 8);
    let stem = match file_stem(rel_path) {
        Some(s) => s,
        None => String::from_str("unknown"),
    };
    let mut name = stem;
    name.append(".");
    name.append(short.as_str());
    match extension(rel_path) {
        Some(e) => {
            name.append(".");
            name.append(e.as_str());
        },
        None => {},
    }
    proof {
        assert(short@ =~= blake3_hex_spec(content@).take(8));
        let ext = match path_extension(rel_path@) {
            Some(e) => "."@ + e,
            None => seq![],
        };
        let stem_s = match path_file_stem(rel_path@) {
            Some(s) => s,
            None => "unknown"@,
        };
        assert(name@ =~= stem_s + "."@ + blake3_hex_spec(content@).take(8) + ext);
    }
    with_file_name(rel_path, name.as_str())
}

// ---------------------------------------------------------------------
// Collections and categories
// ---------------------------------------------------------------------

/// A post belongs to a collection when its relative path is the
/// collection's directory or lies under it (`dir/...`, as text).
pub open spec fn in_collection(rel_path: Seq<char>, dir: Seq<char>) -> bool {
    rel_path == dir || crate::search::starts_with(rel_path, dir + "/"@)
}

/// Indices of the posts (by relative path, if known) in collection `dir`,
/// among the first `n`, in order.
pub open spec fn members(rel_paths: Seq<Option<String>>, dir: Seq<char>, n: int) -> Seq<int>
    decreases n,
{
    if n <= 0 {
        seq![]
    } else {
        members(rel_paths, dir, n - 1) + match rel_paths[n - 1] {
            Some(p) => if in_collection(p@, dir) {
                seq![n - 1]
            } else {
                seq![]
            },
            None => seq![],
        }
    }
}

fn in_collection_exec(rel_path: &str, dir: &str) -> (r: bool)
    ensures
        r == in_collection(rel_path@, dir@),
{
    if str_equal(rel_path, dir) {
        return true;
    }
    let p = crate::text::chars_of(rel_path);
    let mut pre = crate::text::chars_of(dir);
    pre.push('/');
    proof {
        reveal_strlit("/");
    }
    assert(pre@ =~= dir@ + "/"@);
    let r = crate::text::matches_chars_at(&p, &pre, 0);
    proof {
        if pre@.len() <= p@.len() {
            assert(p@.take(pre@.len() as int) =~= p@.subrange(0, pre@.len() as int));
        }
    }
    r
}

/// For each collection (name, directory), the indices of its posts, in
/// order.
pub fn collection_members(rel_paths: &Vec<Option<String>>, collections: &Vec<(String, String)>) -> (r:
    Vec<(String, Vec<usize>)>)
    ensures
        r@.len() == collections@.len(),
        forall|c: int|
            0 <= c < r@.len() ==> (#[trigger] r@[c]).0@ == collections@[c].0@ && crate::toc::usizes(
                r@[c].1@,
            ) == members(rel_paths@, collections@[c].1@, rel_paths@.len() as int),
{
    let mut out: Vec<(String, Vec<usize>)> = Vec::new();
    let mut c: usize = 0;
    while c < collections.len()
        invariant
            c <= collections@.len(),
            out@.len() == c,
            forall|k: int|
                0 <= k < c ==> (#[trigger] out@[k]).0@ == collections@[k].0@
                    && crate::toc::usizes(out@[k].1@) == members(
                    rel_paths@,
                    collections@[k].1@,
                    rel_paths@.len() as int,
                ),
        decreases collections.len() - c,
    {
        let dir = collections[c].1.as_str();
        let mut idx: Vec<usize> = Vec::new();
        let mut i: usize = 0;
        while i < rel_paths.len()
            invariant
                i <= rel_paths@.len(),
                dir@ == collections@[c as int].1@,
                crate::toc::usizes(idx@) == members(rel_paths@, dir@, i as int),
            decreases rel_paths.len() - i,
        {
            let ghost before = idx@;
            match &rel_paths[i] {
                Some(p) => {
                    if in_collection_exec(p.as_str(), dir) {
                        idx.push(i);
                        assert(crate::toc::usizes(idx@) =~= crate::toc::usizes(before).push(
                            i as int,
                        ));
                    }
                },
                None => {},
            }
            i += 1;
        }
        out.push((collections[c].0.clone(), idx));
        c += 1;
    }
    out
}

// ---------------------------------------------------------------------
// Feeds and error pages
// ---------------------------------------------------------------------

/// The names among `names` that end in `.xml`, in order.
pub open spec fn xml_names(names: Seq<Seq<char>>) -> Seq<Seq<char>>
    decreases names.len(),
{
    if names.len() == 0 {
        seq![]
    } else {
        xml_names(names.drop_last()) + if ends_with(names.last(), ".xml"@) {
            seq![names.last()]
        } else {
            seq![]
        }
    }
}

/// The feed templates among some template names.
pub fn xml_templates(names: &Vec<String>) -> (r: Vec<String>)
    ensures
        strings_view(r@) == xml_names(strings_view(names@)),
{
    let ghost all = strings_view(names@);
    let mut out: Vec<String> = Vec::new();
    let mut i: usize = 0;
    while i < names.len()
        invariant
            i <= names@.len(),
            all == strings_view(names@),
            strings_view(out@) == xml_names(all.take(i as int)),
        decreases names.len() - i,
    {
        assert(all.take(i + 1).drop_last() =~= all.take(i as int));
        assert(all.take(i + 1).last() == names@[i as int]@);
        if str_ends_with(names[i].as_str(), ".xml") {
            out.push(names[i].clone());
        }
        assert(strings_view(out@) =~= xml_names(all.take(i + 1)));
        i += 1;
    }
    assert(all.take(names@.len() as int) =~= all);
    out
}

/// The names under which a `tera::Tera` holds its templates (the keys of
/// its template map).
pub uninterp spec fn tera_template_names(tera: tera::Tera) -> Set<Seq<char>>;

/// `Tera::get_template_names`, collected. Claimed, as its source shows (it
/// walks the keys of the template map): each name that the Tera holds comes
/// out exactly once, and nothing else. The order is that of a `HashMap` walk
/// and is left unsaid.
#[verifier::external_body]
fn template_names(tera: &tera::Tera) -> (r: Vec<String>)
    ensures
        strings_view(r@).no_duplicates(),
        forall|n: Seq<char>|
            #![trigger strings_view(r@).contains(n)]
            #![trigger tera_template_names(*tera).contains(n)]
            strings_view(r@).contains(n) <==> tera_template_names(*tera).contains(n),
{
    tera.get_template_names().map(|n| n.to_string()).collect()
}

/// The feed templates that Tera holds: each template whose name ends in
/// `.xml`, once, and no other name.
pub fn collect_xml_templates(tera: &tera::Tera) -> (r: Vec<String>)
    ensures
        forall|i: int| 0 <= i < r@.len() ==> ends_with(#[trigger] r@[i]@, ".xml"@),
        strings_view(r@).no_duplicates(),
        forall|n: Seq<char>|
            #![trigger strings_view(r@).contains(n)]
            #![trigger tera_template_names(*tera).contains(n)]
            strings_view(r@).contains(n) <==> (tera_template_names(*tera).contains(n) && ends_with(
                n,
                ".xml"@,
            )),
{
    let names = template_names(tera);
    let r = xml_templates(&names);
    proof {
        lemma_xml_names_suffix(strings_view(names@));
        lemma_xml_names_members(strings_view(names@));
        assert forall|i: int| 0 <= i < r@.len() implies ends_with(#[trigger] r@[i]@, ".xml"@) by {
            assert(strings_view(r@)[i] == r@[i]@);
        }
    }
    r
}

proof fn lemma_xml_names_members(names: Seq<Seq<char>>)
    ensures
        forall|n: Seq<char>|
            #[trigger] xml_names(names).contains(n) <==> (names.contains(n) && ends_with(n, ".xml"@)),
        names.no_duplicates() ==> xml_names(names).no_duplicates(),
    decreases names.len(),
{
    if names.len() > 0 {
        let init = names.drop_last();
        let prev = xml_names(init);
        let x = names.last();
        lemma_xml_names_members(init);
        assert(names =~= init.push(x));
        let tail = if ends_with(x, ".xml"@) {
            seq![x]
        } else {
            seq![]
        };
        assert(xml_names(names) == prev + tail);
        assert forall|n: Seq<char>|
            #[trigger] xml_names(names).contains(n) <==> (names.contains(n) && ends_with(n, ".xml"@)) by {
            if xml_names(names).contains(n) {
                let k = choose|k: int| 0 <= k < xml_names(names).len() && xml_names(names)[k] == n;
                if k < prev.len() {
                    assert(prev[k] == n);
                    assert(prev.contains(n));
                    let j = choose|j: int| 0 <= j < init.len() && init[j] == n;
                    assert(names[j] == n);
                } else {
                    assert(n == x);
                    assert(names[names.len() - 1] == n);
                }
            }
            if names.contains(n) && ends_with(n, ".xml"@) {
                let j = choose|j: int| 0 <= j < names.len() && names[j] == n;
                if j < init.len() {
                    assert(init[j] == n);
                    assert(init.contains(n));
                    assert(prev.contains(n));
                    let k = choose|k: int| 0 <= k < prev.len() && prev[k] == n;
                    assert((prev + tail)[k] == n);
                    assert(xml_names(names)[k] == n);
                } else {
                    assert(xml_names(names)[prev.len() as int] == n);
                }
            }
        }
        if names.no_duplicates() {
            assert(init.no_duplicates()) by {
                assert forall|i: int, j: int| 0 <= i < init.len() && 0 <= j < init.len() && i != j
                    implies init[i] != init[j] by {
                    assert(init[i] == names[i] && init[j] == names[j]);
                }
            }
            if ends_with(x, ".xml"@) {
                assert(!init.contains(x)) by {
                    if init.contains(x) {
                        let j = choose|j: int| 0 <= j < init.len() && init[j] == x;
                        assert(names[j] == names[names.len() - 1]);
                    }
                }
                assert(!prev.contains(x));
                let ys = xml_names(names);
                assert(ys =~= prev.push(x));
                assert forall|i: int, j: int| 0 <= i < ys.len() && 0 <= j < ys.len() && i != j
                    implies ys[i] != ys[j] by {
                    if i < prev.len() && j < prev.len() {
                        assert(ys[i] == prev[i] && ys[j] == prev[j]);
                    } else if i < prev.len() {
                        assert(ys[i] == prev[i]);
                        assert(prev.contains(prev[i]));
                    } else if j < prev.len() {
                        assert(ys[j] == prev[j]);
                        assert(prev.contains(prev[j]));
                    }
                }
            } else {
                assert(xml_names(names) =~= prev);
            }
        }
    } else {
        assert(xml_names(names) =~= seq![]);
    }
}

proof fn lemma_xml_names_suffix(names: Seq<Seq<char>>)
    ensures
        forall|i: int|
            0 <= i < xml_names(names).len() ==> ends_with(#[trigger] xml_names(names)[i], ".xml"@),
    decreases names.len(),
{
    if names.len() > 0 {
        let prev = xml_names(names.drop_last());
        lemma_xml_names_suffix(names.drop_last());
        assert forall|i: int|
            0 <= i < xml_names(names).len() implies ends_with(#[trigger] xml_names(names)[i], ".xml"@) by {
            if i < prev.len() {
                assert(xml_names(names)[i] == prev[i]);
            }
        }
    }
}

/// A feed checked as RSS: its name holds `rss` and ends in `.xml`.
pub fn is_rss_template(name: &str) -> (r: bool)
    ensures
        r == (contains_seq(name@, "rss"@) && ends_with(name@, ".xml"@)),
{
    str_contains(name, "rss") && str_ends_with(name, ".xml")
}

/// The error pages that are built: `404.html`, then `500.html`, each where
/// a template of that name exists.
pub fn error_page_names(names: &Vec<String>) -> (r: Vec<String>)
    ensures
        strings_view(r@) == (if strings_view(names@).contains("404.html"@) {
            seq!["404.html"@]
        } else {
            seq![]
        }) + (if strings_view(names@).contains("500.html"@) {
            seq!["500.html"@]
        } else {
            seq![]
        }),
{
    let mut out: Vec<String> = Vec::new();
    if crate::hierarchy::contains_str(names, "404.html") {
        out.push(String::from_str("404.html"));
    }
    if crate::hierarchy::contains_str(names, "500.html") {
        out.push(String::from_str("500.html"));
    }
    proof {
        let a = if strings_view(names@).contains("404.html"@) { seq!["404.html"@] } else { seq![] };
        let b = if strings_view(names@).contains("500.html"@) { seq!["500.html"@] } else { seq![] };
        assert(strings_view(out@) =~= a + b);
    }
    out
}

/// A content file is a post of one of the collections (by directory) when
/// it is a `.norg` file under that directory other than its `index.norg`.
pub open spec fn is_post_spec(rel: Seq<char>, dirs: Seq<String>) -> bool {
    path_extension(rel) == Some("norg"@) && exists|c: int|
        0 <= c < dirs.len() && path_starts_with(rel, (#[trigger] dirs[c])@) && !path_eq(
            rel,
            dirs[c]@ + "/index.norg"@,
        )
}

pub fn is_post(rel_path: &str, collection_dirs: &Vec<String>) -> (r: bool)
    ensures
        r == is_post_spec(rel_path@, collection_dirs@),
{
    let is_norg = match extension(rel_path) {
        Some(e) => str_equal(e.as_str(), "norg"),
        None => false,
    };
    if !is_norg {
        return false;
    }
    let mut c: usize = 0;
    while c < collection_dirs.len()
        invariant
            c <= collection_dirs@.len(),
            path_extension(rel_path@) == Some("norg"@),
            forall|k: int|
                0 <= k < c ==> !(path_starts_with(rel_path@, (#[trigger] collection_dirs@[k])@)
                    && !path_eq(rel_path@, collection_dirs@[k]@ + "/index.norg"@)),
        decreases collection_dirs.len() - c,
    {
        let dir = collection_dirs[c].as_str();
        let mut index = String::from_str(dir);
        index.append("/index.norg");
        if path_starts_with_exec(rel_path, dir) && !same_path(rel_path, index.as_str()) {
            assert(index@ == collection_dirs@[c as int]@ + "/index.norg"@);
            assert(path_starts_with(rel_path@, collection_dirs@[c as int]@));
            return true;
        }
        c += 1;
    }
    false
}

} // verus!
