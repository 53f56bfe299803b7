//! Development server decisions: where a request goes, how rendered pages
//! are adjusted for local preview, and what a file change reloads.
use vstd::prelude::*;

use crate::paths::{extension, path_extension, path_with_extension};
use crate::schema::strings_view;
use crate::search::starts_with;
use crate::site::{page_url_path, xml_names, xml_templates};
use crate::text::{
    chars_of, dec_chars, ends_with, find_chars, matches_chars_at, replace_all, replace_seq,
    str_equal, string_from_chars,
};

verus! {

/// Port of the LiveReload websocket.
pub const LIVE_RELOAD_PORT: u16 = 35729;

// ---------------------------------------------------------------------
// Rendered pages
// ---------------------------------------------------------------------

/// The page with every occurrence of the site's root URL (as HTML-escaped
/// in rendered pages, `://` written `:&#x2F;&#x2F;`) replaced by the
/// preview server's URL.
pub open spec fn rewrite_urls_spec(body: Seq<char>, root_url: Seq<char>, routes_url: Seq<char>) -> Seq<
    char,
> {
    replace_seq(body, replace_seq(root_url, "://"@, ":&#x2F;&#x2F;"@), routes_url)
}

pub fn rewrite_urls(body: String, root_url: &str, routes_url: &str) -> (r: String)
    ensures
        r@ == rewrite_urls_spec(body@, root_url@, routes_url@),
{
    let escaped = replace_all(root_url, "://", ":&#x2F;&#x2F;");
    replace_all(body.as_str(), escaped.as_str(), routes_url)
}

/// Index of the last occurrence of `p` in `s`, searching down from `i`.
pub open spec fn rfind_from(s: Seq<char>, p: Seq<char>, i: int) -> Option<int>
    decreases i + 1,
{
    if i < 0 {
        None
    } else if i + p.len() <= s.len() && s.subrange(i, i + p.len()) == p {
        Some(i)
    } else {
        rfind_from(s, p, i - 1)
    }
}

pub open spec fn livereload_tag() -> Seq<char> {
    "<script src=\"/livereload.js?port=35729&amp;mindelay=10\"></script>"@
}

/// The page with the LiveReload script inserted before its last
/// `</body>`; unchanged without one.
pub open spec fn inject_spec(html: Seq<char>) -> Seq<char> {
    match rfind_from(html, "</body>"@, html.len() as int) {
        Some(pos) => html.take(pos) + livereload_tag() + html.skip(pos),
        None => html,
    }
}

proof fn lemma_rfind_from(s: Seq<char>, p: Seq<char>, i: int)
    ensures
        rfind_from(s, p, i) matches Some(k) ==> 0 <= k <= i && k + p.len() <= s.len(),
    decreases i + 1,
{
    if i >= 0 && !(i + p.len() <= s.len() && s.subrange(i, i + p.len()) == p) {
        lemma_rfind_from(s, p, i - 1);
    }
}

/// Inserts the LiveReload script before the last `</body>`.
pub fn inject_livereload_script(html: &mut String)
    ensures
        final(html)@ == inject_spec(old(html)@),
{
    let cs = chars_of(html.as_str());
    let pat = chars_of("</body>");
    let ghost h = cs@;
    let mut i: usize = cs.len();
    let mut found: Option<usize> = None;
    let mut searching = true;
    while searching
        invariant
            cs@ == h,
            h == old(html)@,
            pat@ == "</body>"@,
            i <= h.len(),
            searching ==> found is None && rfind_from(h, pat@, h.len() as int) == rfind_from(
                h,
                pat@,
                i as int,
            ),
            !searching ==> match rfind_from(h, pat@, h.len() as int) {
                Some(k) => found == Some(k as usize),
                None => found is None,
            },
        decreases i + if searching {
            1int
        } else {
            0int
        },
    {
        if matches_chars_at(&cs, &pat, i) {
            found = Some(i);
            searching = false;
        } else if i == 0 {
            assert(rfind_from(h, pat@, -1) is None);
            searching = false;
        } else {
            i -= 1;
        }
    }
    proof {
        lemma_rfind_from(h, pat@, h.len() as int);
    }
    match found {
        Some(pos) => {
            let mut out = string_from_chars(&cs, 0, pos);
            out.append("<script src=\"/livereload.js?port=35729&amp;mindelay=10\"></script>");
            let rest = string_from_chars(&cs, pos, cs.len());
            out.append(rest.as_str());
            assert(out@ =~= h.take(pos as int) + livereload_tag() + h.skip(pos as int));
            *html = out;
        },
        None => {},
    }
}

/// The message of an error with terminal bold codes removed.
pub open spec fn plain_error_spec(e: Seq<char>) -> Seq<char> {
    replace_seq(replace_seq(e, "\u{1b}[1m"@, ""@), "\u{1b}[0m"@, ""@)
}

pub fn plain_error(e: &str) -> (r: String)
    ensures
        r@ == plain_error_spec(e@),
{
    let a = replace_all(e, "\u{1b}[1m", "");
    replace_all(a.as_str(), "\u{1b}[0m", "")
}

/// Body of the fallback error page.
pub fn internal_error_body(e: &str) -> (r: String)
    ensures
        r@ == "500 Internal Server Error\n\n"@ + plain_error_spec(e@),
{
    let mut m = String::from_str("500 Internal Server Error\n\n");
    let p = plain_error(e);
    m.append(p.as_str());
    m
}

// ---------------------------------------------------------------------
// Requests
// ---------------------------------------------------------------------

/// What a request path is served by.
#[derive(Clone, Copy, Debug, PartialEq, Eq, Structural)]
pub enum DevRoute {
    /// The LiveReload client script.
    LiveReloadScript,
    /// The index of categories.
    CategoryIndex,
    /// One category's page.
    Category,
    /// A file of the site or theme assets.
    Asset,
    /// An XML feed template.
    XmlFeed,
    /// A content page.
    Content,
}

/// Route of request path `path` given the categories directory.
pub open spec fn route_spec(path: Seq<char>, categories_dir: Seq<char>) -> DevRoute {
    if path == "/livereload.js"@ {
        DevRoute::LiveReloadScript
    } else if path == seq!['/'] + categories_dir {
        DevRoute::CategoryIndex
    } else if starts_with(path, seq!['/'] + categories_dir + seq!['/']) {
        DevRoute::Category
    } else if starts_with(path, "/assets/"@) {
        DevRoute::Asset
    } else if ends_with(path, ".xml"@) {
        DevRoute::XmlFeed
    } else {
        DevRoute::Content
    }
}

fn begins_with(s: &Vec<char>, p: &Vec<char>) -> (r: bool)
    ensures
        r == starts_with(s@, p@),
{
    let r = matches_chars_at(s, p, 0);
    proof {
        if p@.len() <= s@.len() {
            assert(s@.take(p@.len() as int) =~= s@.subrange(0, p@.len() as int));
        }
    }
    r
}

fn finishes_with(s: &Vec<char>, p: &Vec<char>) -> (r: bool)
    ensures
        r == ends_with(s@, p@),
{
    if p.len() > s.len() {
        return false;
    }
    let r = matches_chars_at(s, p, s.len() - p.len());
    proof {
        assert(s@.skip(s@.len() - p@.len()) =~= s@.subrange(
            s@.len() - p@.len(),
            s@.len() as int,
        ));
    }
    r
}

/// Decides what serves a request (see [`route_spec`]).
pub fn route_request(path: &str, categories_dir: &str) -> (r: DevRoute)
    ensures
        r == route_spec(path@, categories_dir@),
{
    if str_equal(path, "/livereload.js") {
        return DevRoute::LiveReloadScript;
    }
    let p = chars_of(path);
    let mut index = String::from_str("/");
    index.append(categories_dir);
    proof {
        reveal_strlit("/");
    }
    assert(index@ =~= seq!['/'] + categories_dir@);
    if str_equal(path, index.as_str()) {
        return DevRoute::CategoryIndex;
    }
    let mut prefix = chars_of(index.as_str());
    prefix.push('/');
    assert(prefix@ =~= seq!['/'] + categories_dir@ + seq!['/']);
    if begins_with(&p, &prefix) {
        return DevRoute::Category;
    }
    let assets = chars_of("/assets/");
    if begins_with(&p, &assets) {
        return DevRoute::Asset;
    }
    let xml = chars_of(".xml");
    if finishes_with(&p, &xml) {
        return DevRoute::XmlFeed;
    }
    DevRoute::Content
}

/// `s` with every leading repetition of `p` removed
/// (`str::trim_start_matches`).
pub open spec fn trim_start_all(s: Seq<char>, p: Seq<char>) -> Seq<char>
    decreases s.len(),
{
    if p.len() > 0 && starts_with(s, p) {
        trim_start_all(s.skip(p.len() as int), p)
    } else {
        s
    }
}

/// `s` with every trailing repetition of `c` removed.
pub open spec fn trim_end_char(s: Seq<char>, c: char) -> Seq<char>
    decreases s.len(),
{
    if s.len() > 0 && s.last() == c {
        trim_end_char(s.drop_last(), c)
    } else {
        s
    }
}

fn trim_start_pattern(s: &str, p: &str) -> (r: String)
    ensures
        r@ == trim_start_all(s@, p@),
{
    let cs = chars_of(s);
    let ps = chars_of(p);
    if ps.len() == 0 {
        return String::from_str(s);
    }
    let mut i: usize = 0;
    assert(s@.skip(0) =~= s@);
    while i < cs.len() && matches_chars_at(&cs, &ps, i)
        invariant
            cs@ == s@,
            ps@ == p@,
            p@.len() > 0,
            i <= cs@.len(),
            trim_start_all(s@, p@) == trim_start_all(s@.skip(i as int), p@),
        decreases cs.len() - i,
    {
        proof {
            let rest = s@.skip(i as int);
            assert(rest.take(p@.len() as int) =~= s@.subrange(i as int, i + p@.len()));
            assert(rest.skip(p@.len() as int) =~= s@.skip(i + p@.len()));
        }
        i += ps.len();
    }
    proof {
        let rest = s@.skip(i as int);
        if i < cs@.len() && rest.len() >= p@.len() {
            assert(rest.take(p@.len() as int) =~= s@.subrange(i as int, i + p@.len()));
        }
    }
    let r = string_from_chars(&cs, i, cs.len());
    assert(r@ =~= s@.skip(i as int));
    r
}

/// Asset path of an `/assets/...` request.
pub fn asset_path(request_path: &str) -> (r: String)
    ensures
        r@ == trim_start_all(request_path@, "/assets/"@),
{
    trim_start_pattern(request_path, "/assets/")
}

/// Template name of a feed request: the path without leading slashes.
pub fn feed_template(request_path: &str) -> (r: String)
    ensures
        r@ == trim_start_all(request_path@, "/"@),
{
    trim_start_pattern(request_path, "/")
}

/// Content path of a page request: trailing, then leading slashes removed.
pub fn content_request_path(request_path: &str) -> (r: String)
    ensures
        r@ == trim_start_all(trim_end_char(request_path@, '/'), "/"@),
{
    let mut cs = chars_of(request_path);
    let ghost c0 = cs@;
    while cs.len() > 0 && cs[cs.len() - 1] == '/'
        invariant
            trim_end_char(c0, '/') == trim_end_char(cs@, '/'),
        decreases cs.len(),
    {
        assert(cs@.drop_last() =~= cs@.subrange(0, cs@.len() - 1));
        cs.pop();
    }
    let t = string_from_chars(&cs, 0, cs.len());
    assert(t@ =~= cs@);
    trim_start_pattern(t.as_str(), "/")
}

/// Category named by a `/<categories_dir>/<name>` path (the whole path
/// when it lacks that prefix).
pub fn category_of(path: &str, categories_dir: &str) -> (r: String)
    ensures
        r@ == if starts_with(path@, seq!['/'] + categories_dir@ + seq!['/']) {
            path@.skip(categories_dir@.len() as int + 2)
        } else {
            path@
        },
{
    let p = chars_of(path);
    let mut prefix: Vec<char> = Vec::new();
    prefix.push('/');
    let d = chars_of(categories_dir);
    let mut i: usize = 0;
    while i < d.len()
        invariant
            i <= d@.len(),
            prefix@ == seq!['/'] + d@.take(i as int),
        decreases d.len() - i,
    {
        prefix.push(d[i]);
        i += 1;
        assert(prefix@ =~= seq!['/'] + d@.take(i as int));
    }
    prefix.push('/');
    assert(prefix@ =~= seq!['/'] + categories_dir@ + seq!['/']);
    if begins_with(&p, &prefix) {
        let r = string_from_chars(&p, prefix.len(), p.len());
        assert(r@ =~= path@.skip(categories_dir@.len() as int + 2));
        r
    } else {
        String::from_str(path)
    }
}

/// Colour class of a response status in the request log.
#[derive(Clone, Copy, Debug, PartialEq, Eq, Structural)]
pub enum StatusClass {
    Success,
    Redirect,
    ClientError,
    ServerError,
}

pub open spec fn status_class_spec(code: u16) -> StatusClass {
    if 200 <= code <= 299 {
        StatusClass::Success
    } else if 300 <= code <= 399 {
        StatusClass::Redirect
    } else if 400 <= code <= 499 {
        StatusClass::ClientError
    } else {
        StatusClass::ServerError
    }
}

pub fn status_class(code: u16) -> (r: StatusClass)
    ensures
        r == status_class_spec(code),
{
    if 200 <= code && code <= 299 {
        StatusClass::Success
    } else if 300 <= code && code <= 399 {
        StatusClass::Redirect
    } else if 400 <= code && code <= 499 {
        StatusClass::ClientError
    } else {
        StatusClass::ServerError
    }
}

// ---------------------------------------------------------------------
// File changes
// ---------------------------------------------------------------------

/// What a batch of file changes reloads.
#[derive(Clone, Copy, Debug, PartialEq, Eq, Structural)]
pub struct FileActions {
    pub reload_templates: bool,
    pub reload_assets: bool,
    pub reload_content: bool,
    pub reload_config: bool,
}

impl FileActions {
    /// Nothing to reload.
    pub fn none() -> (r: FileActions)
        ensures
            r == (FileActions {
                reload_templates: false,
                reload_assets: false,
                reload_content: false,
                reload_config: false,
            }),
    {
        FileActions {
            reload_templates: false,
            reload_assets: false,
            reload_content: false,
            reload_config: false,
        }
    }
}

/// What is known of one file event: whether it creates, removes or
/// changes the data of a file; its path; whether that is the site's config
/// file; whether a `templates`, `assets` or `content` directory encloses
/// it; and whether it lies under the theme or site template and asset
/// directories or under the content directory.
pub struct FileEvent {
    pub relevant: bool,
    pub path: String,
    pub is_config: bool,
    pub in_templates_tree: bool,
    pub in_assets_tree: bool,
    pub in_content_tree: bool,
    pub under_theme_templates: bool,
    pub under_templates: bool,
    pub under_theme_assets: bool,
    pub under_assets: bool,
    pub under_content: bool,
}

/// A template file: its extension (`Path::extension`) is `html` or `xml`.
pub open spec fn is_template_path(path: Seq<char>) -> bool {
    crate::paths::path_extension(path) == Some("html"@) || crate::paths::path_extension(path) == Some("xml"@)
}

fn is_template_file(path: &str) -> (r: bool)
    ensures
        r == is_template_path(path@),
{
    match crate::paths::extension(path) {
        Some(e) => str_equal(e.as_str(), "html") || str_equal(e.as_str(), "xml"),
        None => false,
    }
}

/// The actions after one more event: nothing for an irrelevant event or an
/// editor backup (`~`); the config file reloads the config; a template
/// under the theme or site templates reloads templates; a file under the
/// theme or site assets reloads assets; a file under the content directory
/// reloads content.
pub open spec fn apply_event_spec(a: FileActions, e: FileEvent) -> FileActions {
    if !e.relevant || (e.path@.len() > 0 && e.path@.last() == '~') {
        a
    } else if e.is_config {
        FileActions { reload_config: true, ..a }
    } else {
        let templates = a.reload_templates || (is_template_path(e.path@) && e.in_templates_tree && (
        e.under_theme_templates || e.under_templates));
        let assets = a.reload_assets || (e.in_assets_tree && (e.under_theme_assets
            || e.under_assets));
        let content = a.reload_content || (e.in_content_tree && e.under_content);
        FileActions {
            reload_templates: templates,
            reload_assets: assets,
            reload_content: content,
            reload_config: a.reload_config,
        }
    }
}

/// Folds one file event into the pending actions (see
/// [`apply_event_spec`]).
pub fn apply_event(a: FileActions, e: &FileEvent) -> (r: FileActions)
    ensures
        r == apply_event_spec(a, *e),
{
    if !e.relevant {
        return a;
    }
    let p = chars_of(e.path.as_str());
    if p.len() > 0 && p[p.len() - 1] == '~' {
        return a;
    }
    if e.is_config {
        return FileActions { reload_config: true, ..a };
    }
    let is_template = is_template_file(e.path.as_str());
    let mut r = a;
    if is_template && e.in_templates_tree && (e.under_theme_templates || e.under_templates) {
        r.reload_templates = true;
    }
    if e.in_assets_tree && (e.under_theme_assets || e.under_assets) {
        r.reload_assets = true;
    }
    if !r.reload_content && e.in_content_tree && e.under_content {
        r.reload_content = true;
    }
    r
}

/// The actions of a batch of events, starting from none.
pub open spec fn actions_of(events: Seq<FileEvent>, n: int) -> FileActions
    decreases n,
{
    if n <= 0 {
        FileActions {
            reload_templates: false,
            reload_assets: false,
            reload_content: false,
            reload_config: false,
        }
    } else {
        apply_event_spec(actions_of(events, n - 1), events[n - 1])
    }
}

/// The actions a batch of events calls for.
pub fn collect_actions(events: &Vec<FileEvent>) -> (r: FileActions)
    ensures
        r == actions_of(events@, events@.len() as int),
{
    let mut a = FileActions::none();
    let mut i: usize = 0;
    while i < events.len()
        invariant
            i <= events@.len(),
            a == actions_of(events@, i as int),
        decreases events.len() - i,
    {
        a = apply_event(a, &events[i]);
        i += 1;
    }
    a
}

/// Once set, an action stays set for the rest of the batch: events only
/// add reloads.
pub proof fn lemma_actions_monotone(events: Seq<FileEvent>, m: int, n: int)
    requires
        0 <= m <= n <= events.len(),
    ensures
        actions_of(events, m).reload_templates ==> actions_of(events, n).reload_templates,
        actions_of(events, m).reload_assets ==> actions_of(events, n).reload_assets,
        actions_of(events, m).reload_content ==> actions_of(events, n).reload_content,
        actions_of(events, m).reload_config ==> actions_of(events, n).reload_config,
    decreases n - m,
{
    if m < n {
        lemma_actions_monotone(events, m, n - 1);
    }
}

/// A backup file written by an editor: its path ends in `~`.
pub open spec fn is_backup(e: FileEvent) -> bool {
    e.path@.len() > 0 && e.path@.last() == '~'
}

/// What each kind of change reloads, whatever was pending before: a
/// relevant change that is no editor backup reloads the configuration when
/// it is the config file; otherwise a template (`.html`, `.xml`) in a
/// templates tree under the site's or the theme's templates reloads
/// templates, a file in an assets tree under the site's or the theme's
/// assets reloads assets, and a file under the content directory reloads
/// content. An irrelevant change or a backup changes nothing.
pub proof fn lemma_event_reloads(a: FileActions, e: FileEvent)
    ensures
        !e.relevant || is_backup(e) ==> apply_event_spec(a, e) == a,
        e.relevant && !is_backup(e) && e.is_config ==> apply_event_spec(a, e).reload_config,
        e.relevant && !is_backup(e) && !e.is_config && e.in_assets_tree && (e.under_assets
            || e.under_theme_assets) ==> apply_event_spec(a, e).reload_assets,
        e.relevant && !is_backup(e) && !e.is_config && e.in_content_tree && e.under_content
            ==> apply_event_spec(a, e).reload_content,
        e.relevant && !is_backup(e) && !e.is_config && is_template_path(e.path@) && e.in_templates_tree
            && (e.under_templates || e.under_theme_templates) ==> apply_event_spec(a, e).reload_templates,
{
}

/// The site's own directories and the theme's count alike: swapping
/// whether a change lies under the site's or the theme's templates, and
/// under the site's or the theme's assets, reloads the same things.
pub proof fn lemma_site_and_theme_alike(a: FileActions, e: FileEvent)
    ensures
        apply_event_spec(a, e) == apply_event_spec(
            a,
            FileEvent {
                under_templates: e.under_theme_templates,
                under_theme_templates: e.under_templates,
                under_assets: e.under_theme_assets,
                under_theme_assets: e.under_assets,
                ..e
            },
        ),
{
}

/// A step of carrying out a batch of reloads.
#[derive(Clone, Copy, Debug, PartialEq, Eq, Structural)]
pub enum ReloadStep {
    /// Re-read the site configuration (and the posts with it).
    ReloadConfig,
    /// Render the pages again.
    RebuildPages,
    /// Tell the browsers to reload.
    SendReload,
    /// Re-read the templates; when that succeeds, render the pages again
    /// and tell the browsers to reload.
    ReloadTemplates,
    /// Collect the posts' metadata again.
    RecollectPosts,
}

/// The steps for a batch of reloads: a configuration reload stands for all
/// the others; otherwise assets, then templates, then content.
pub open spec fn reload_steps_spec(a: FileActions) -> Seq<ReloadStep> {
    if a.reload_config {
        seq![ReloadStep::ReloadConfig, ReloadStep::RebuildPages]
    } else {
        (if a.reload_assets {
            seq![ReloadStep::SendReload]
        } else {
            seq![]
        }) + (if a.reload_templates {
            seq![ReloadStep::ReloadTemplates]
        } else {
            seq![]
        }) + (if a.reload_content {
            seq![ReloadStep::RecollectPosts, ReloadStep::RebuildPages, ReloadStep::SendReload]
        } else {
            seq![]
        })
    }
}

pub fn reload_steps(a: FileActions) -> (r: Vec<ReloadStep>)
    ensures
        r@ == reload_steps_spec(a),
{
    let mut v: Vec<ReloadStep> = Vec::new();
    if a.reload_config {
        v.push(ReloadStep::ReloadConfig);
        v.push(ReloadStep::RebuildPages);
        assert(v@ =~= reload_steps_spec(a));
        return v;
    }
    if a.reload_assets {
        v.push(ReloadStep::SendReload);
    }
    if a.reload_templates {
        v.push(ReloadStep::ReloadTemplates);
    }
    if a.reload_content {
        v.push(ReloadStep::RecollectPosts);
        v.push(ReloadStep::RebuildPages);
        v.push(ReloadStep::SendReload);
    }
    assert(v@ =~= reload_steps_spec(a));
    v
}

/// The address pages are served under: the machine's address when the
/// server is exposed to the network, else `localhost`.
pub fn preview_url(host: bool, local_ip: &str, port: u16) -> (r: String)
    ensures
        r@ == "http://"@ + (if host { local_ip@ } else { "localhost"@ }) + ":"@ + dec_chars(port as nat),
{
    let mut s = String::from_str("http://");
    if host {
        s.append(local_ip);
    } else {
        s.append("localhost");
    }
    s.append(":");
    let p = crate::text::usize_to_string(port as usize);
    s.append(p.as_str());
    s
}


// ---------------------------------------------------------------------
// Pages of the live preview
// ---------------------------------------------------------------------

/// Keys of the content pages among `files` (content paths, each with
/// whether it is a draft): `/` and the path without extension of each
/// `.norg` file that is no draft, in order.
pub open spec fn content_page_keys(files: Seq<(Seq<char>, bool)>) -> Seq<Seq<char>>
    decreases files.len(),
{
    if files.len() == 0 {
        seq![]
    } else {
        let f = files.last();
        content_page_keys(files.drop_last()) + if path_extension(f.0) == Some("norg"@) && !f.1 {
            seq!["/"@ + path_with_extension(f.0, seq![])]
        } else {
            seq![]
        }
    }
}

/// The pages the preview server renders into memory, by key, in the order
/// it renders them: the content pages (see [`content_page_keys`]); when
/// there are posts, the category index `/<categories_dir>` and a page
/// `/<categories_dir>/<category>` for each category; and `/<name>` for each
/// template whose name ends in `.xml` (a feed).
pub open spec fn preview_keys_spec(
    files: Seq<(Seq<char>, bool)>,
    categories_dir: Seq<char>,
    categories: Seq<Seq<char>>,
    templates: Seq<Seq<char>>,
    has_posts: bool,
) -> Seq<Seq<char>> {
    content_page_keys(files) + (if has_posts {
        seq!["/"@ + categories_dir] + categories.map_values(
            |c: Seq<char>| "/"@ + categories_dir + "/"@ + c,
        )
    } else {
        seq![]
    }) + xml_names(templates).map_values(|t: Seq<char>| "/"@ + t)
}

pub open spec fn files_view(v: Seq<(String, bool)>) -> Seq<(Seq<char>, bool)> {
    Seq::new(v.len(), |i: int| (v[i].0@, v[i].1))
}

/// The keys of the pages the preview server renders (see
/// [`preview_keys_spec`]).
pub fn preview_page_keys(
    files: &Vec<(String, bool)>,
    categories_dir: &str,
    categories: &Vec<String>,
    templates: &Vec<String>,
    has_posts: bool,
) -> (r: Vec<String>)
    ensures
        strings_view(r@) == preview_keys_spec(
            files_view(files@),
            categories_dir@,
            strings_view(categories@),
            strings_view(templates@),
            has_posts,
        ),
{
    let ghost fv = files_view(files@);
    let mut out: Vec<String> = Vec::new();
    let mut i: usize = 0;
    proof {
        reveal_strlit("norg");
        reveal_strlit("/");
        assert(fv.take(0) =~= seq![]);
        assert(strings_view(out@) =~= content_page_keys(fv.take(0)));
    }
    while i < files.len()
        invariant
            i <= files@.len(),
            fv == files_view(files@),
            strings_view(out@) == content_page_keys(fv.take(i as int)),
        decreases files.len() - i,
    {
        let ghost before = strings_view(out@);
        assert(fv.take(i + 1).drop_last() =~= fv.take(i as int));
        assert(fv.take(i + 1).last() == fv[i as int]);
        let is_norg = match extension(files[i].0.as_str()) {
            Some(e) => str_equal(e.as_str(), "norg"),
            None => false,
        };
        if is_norg && !files[i].1 {
            let k = page_url_path(files[i].0.as_str());
            out.push(k);
            assert(strings_view(out@) =~= before.push("/"@ + path_with_extension(fv[i as int].0, seq![])));
        } else {
            assert(strings_view(out@) =~= before);
        }
        assert(strings_view(out@) =~= content_page_keys(fv.take(i + 1)));
        i += 1;
    }
    assert(fv.take(files@.len() as int) =~= fv);
    let ghost mid = strings_view(out@);
    let ghost cv = strings_view(categories@);
    let ghost cats_part: Seq<Seq<char>> = if has_posts {
        seq!["/"@ + categories_dir@] + cv.map_values(|c: Seq<char>| "/"@ + categories_dir@ + "/"@ + c)
    } else {
        seq![]
    };
    if has_posts {
        let mut idx = String::from_str("/");
        idx.append(categories_dir);
        out.push(idx);
        let mut j: usize = 0;
        assert(strings_view(out@) =~= mid + seq!["/"@ + categories_dir@] + cv.map_values(
            |c: Seq<char>| "/"@ + categories_dir@ + "/"@ + c,
        ).take(0));
        while j < categories.len()
            invariant
                j <= categories@.len(),
                cv == strings_view(categories@),
                strings_view(out@) == mid + seq!["/"@ + categories_dir@] + cv.map_values(
                    |c: Seq<char>| "/"@ + categories_dir@ + "/"@ + c,
                ).take(j as int),
            decreases categories.len() - j,
        {
            let ghost before = strings_view(out@);
            let mut k = String::from_str("/");
            k.append(categories_dir);
            k.append("/");
            k.append(categories[j].as_str());
            assert(k@ == "/"@ + categories_dir@ + "/"@ + cv[j as int]);
            let ghost f = |c: Seq<char>| "/"@ + categories_dir@ + "/"@ + c;
            assert(cv.map_values(f)[j as int] == k@);
            assert(cv.map_values(f).take(j + 1) =~= cv.map_values(f).take(j as int).push(k@));
            out.push(k);
            assert(strings_view(out@) =~= before.push(k@));
            assert(strings_view(out@) =~= mid + seq!["/"@ + categories_dir@] + cv.map_values(
                |c: Seq<char>| "/"@ + categories_dir@ + "/"@ + c,
            ).take(j + 1));
            j += 1;
        }
        assert(cv.map_values(|c: Seq<char>| "/"@ + categories_dir@ + "/"@ + c).take(
            categories@.len() as int,
        ) =~= cv.map_values(|c: Seq<char>| "/"@ + categories_dir@ + "/"@ + c));
    }
    assert(strings_view(out@) =~= mid + cats_part);
    let ghost mid2 = strings_view(out@);
    let feeds = xml_templates(templates);
    let ghost xs = strings_view(feeds@);
    let mut j: usize = 0;
    assert(strings_view(out@) =~= mid2 + xs.map_values(|t: Seq<char>| "/"@ + t).take(0));
    while j < feeds.len()
        invariant
            j <= feeds@.len(),
            xs == strings_view(feeds@),
            strings_view(out@) == mid2 + xs.map_values(|t: Seq<char>| "/"@ + t).take(j as int),
        decreases feeds.len() - j,
    {
        let mut k = String::from_str("/");
        k.append(feeds[j].as_str());
        let ghost before = strings_view(out@);
        let ghost g = |t: Seq<char>| "/"@ + t;
        assert(k@ == "/"@ + xs[j as int]);
        assert(xs.map_values(g)[j as int] == k@);
        assert(xs.map_values(g).take(j + 1) =~= xs.map_values(g).take(j as int).push(k@));
        out.push(k);
        assert(strings_view(out@) =~= before.push(k@));
        assert(strings_view(out@) =~= mid2 + xs.map_values(|t: Seq<char>| "/"@ + t).take(j + 1));
        j += 1;
    }
    assert(xs.map_values(|t: Seq<char>| "/"@ + t).take(feeds@.len() as int) =~= xs.map_values(
        |t: Seq<char>| "/"@ + t,
    ));
    out
}

} // verus!
