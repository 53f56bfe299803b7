//! The internal link graph: canonical page routes, the cleaning of link
//! targets, and the inversion of links into per-page backlinks.
use std::collections::hash_map::DefaultHasher;
use std::hash::Hasher;
use vstd::prelude::*;
use vstd::std_specs::hash::DefaultHasherAdditionalSpecFns;
use vstd::utf8::encode_utf8;

use crate::hierarchy::keys_distinct;
use crate::schema::lookup;
use crate::search::{is_ws_char, trim_ws, ws_back, ws_skip};
use crate::text::{
    chars_of, contains_seq, names_have, ends_with, find_chars, find_seq_from, matches_chars_at, string_from_chars,
};

verus! {

// ---------------------------------------------------------------------
// Routes
// ---------------------------------------------------------------------

/// `s` without the trailing `/` characters.
pub open spec fn trim_end_slashes(s: Seq<char>) -> Seq<char>
    decreases s.len(),
{
    if s.len() > 0 && s.last() == '/' {
        trim_end_slashes(s.drop_last())
    } else {
        s
    }
}

/// Canonical root-relative route of a page path or link target: trimmed,
/// trailing slashes dropped, a leading slash guaranteed, one `/index`
/// suffix folded; the site root is the empty route.
pub open spec fn canonical_route_spec(p: Seq<char>) -> Seq<char> {
    let t = trim_end_slashes(trim_ws(p));
    let r = if t.len() > 0 && t[0] == '/' {
        t
    } else {
        seq!['/'] + t
    };
    let r2 = if ends_with(r, "/index"@) {
        r.take(r.len() - 6)
    } else {
        r
    };
    if r2 == seq!['/'] {
        seq![]
    } else {
        r2
    }
}

pub fn trimmed_chars(s: &str) -> (r: Vec<char>)
    ensures
        r@ == trim_ws(s@),
{
    let cs = chars_of(s);
    let ghost t = cs@;
    let n = cs.len();
    let mut a: usize = 0;
    while a < n && is_ws_at(&cs, a)
        invariant
            cs@ == t,
            n == t.len(),
            a <= n,
            ws_skip(t, 0) == ws_skip(t, a as int),
        decreases n - a,
    {
        a += 1;
    }
    let mut b: usize = n;
    while b > a && is_ws_at(&cs, b - 1)
        invariant
            cs@ == t,
            n == t.len(),
            a <= b <= n,
            a == ws_skip(t, 0),
            ws_back(t, a as int, n as int) == ws_back(t, a as int, b as int),
        decreases b,
    {
        b -= 1;
    }
    let mut out: Vec<char> = Vec::new();
    let mut k = a;
    while k < b
        invariant
            cs@ == t,
            a <= k <= b <= n == t.len(),
            out@ == t.subrange(a as int, k as int),
        decreases b - k,
    {
        out.push(cs[k]);
        k += 1;
        assert(out@ =~= t.subrange(a as int, k as int));
    }
    out
}

fn is_ws_at(cs: &Vec<char>, i: usize) -> (r: bool)
    requires
        i < cs@.len(),
    ensures
        r == is_ws_char(cs@[i as int]),
{
    let c = cs[i];
    ('\u{9}' <= c && c <= '\u{d}') || c == ' ' || c == '\u{85}' || c == '\u{a0}' || c
        == '\u{1680}' || ('\u{2000}' <= c && c <= '\u{200a}') || c == '\u{2028}' || c
        == '\u{2029}' || c == '\u{202f}' || c == '\u{205f}' || c == '\u{3000}'
}

/// Canonical route (see [`canonical_route_spec`]).
pub fn canonical_route(path_like: &str) -> (r: String)
    ensures
        r@ == canonical_route_spec(path_like@),
{
    let mut t = trimmed_chars(path_like);
    let ghost t0 = t@;
    while t.len() > 0 && t[t.len() - 1] == '/'
        invariant
            trim_end_slashes(t0) == trim_end_slashes(t@),
        decreases t.len(),
    {
        assert(t@.drop_last() =~= t@.subrange(0, t@.len() - 1));
        t.pop();
    }
    assert(trim_end_slashes(t@) == t@);
    let mut r: Vec<char> = Vec::new();
    if !(t.len() > 0 && t[0] == '/') {
        r.push('/');
    }
    let mut i: usize = 0;
    let ghost r0 = r@;
    while i < t.len()
        invariant
            i <= t@.len(),
            r@ == r0 + t@.take(i as int),
        decreases t.len() - i,
    {
        r.push(t[i]);
        i += 1;
        assert(r@ =~= r0 + t@.take(i as int));
    }
    assert(t@.take(t@.len() as int) =~= t@);
    let ghost rr = r@;
    assert(rr =~= (if t@.len() > 0 && t@[0] == '/' {
        t@
    } else {
        seq!['/'] + t@
    }));
    let suffix = chars_of("/index");
    proof {
        reveal_strlit("/index");
    }
    let n = r.len();
    let mut end = n;
    if n >= 6 && matches_chars_at(&r, &suffix, n - 6) {
        assert(rr.skip(rr.len() - 6) =~= rr.subrange(n - 6, n as int));
        end = n - 6;
    } else {
        if n >= 6 {
            assert(rr.skip(rr.len() - 6) =~= rr.subrange(n - 6, n as int));
        }
    }
    if end == 1 && r[0] == '/' {
        assert(rr.take(end as int) =~= seq!['/']);
        return String::new();
    }
    let out = string_from_chars(&r, 0, end);
    proof {
        if end == n {
            assert(rr.subrange(0, n as int) =~= rr);
        } else {
            assert(rr.subrange(0, end as int) =~= rr.take(rr.len() - 6));
        }
        if out@ == seq!['/'] {
            assert(out@[0] == r@[0]);
        }
    }
    out
}

/// Canonical route of a content file, given its path relative to the
/// content directory without extension (`blog/index` is `/blog`).
pub fn route_for(rel_path_no_ext: &str) -> (r: String)
    ensures
        r@ == canonical_route_spec(rel_path_no_ext@),
{
    canonical_route(rel_path_no_ext)
}

/// Every canonical route is the site root (empty) or starts with a slash,
/// and none is a bare slash.
pub proof fn lemma_canonical_route_shape(p: Seq<char>)
    ensures
        canonical_route_spec(p).len() == 0 || canonical_route_spec(p)[0] == '/',
        canonical_route_spec(p) != seq!['/'],
{
    reveal_strlit("/index");
    let t = trim_end_slashes(trim_ws(p));
    let r = if t.len() > 0 && t[0] == '/' {
        t
    } else {
        seq!['/'] + t
    };
    assert(r[0] == '/');
    if ends_with(r, "/index"@) {
        let r2 = r.take(r.len() - 6);
        if r2.len() > 0 {
            assert(r2 == r.subrange(0, r.len() - 6));
            assert(r.subrange(0, r.len() - 6)[0] == r[0]);
        }
    }
}

/// Permalink of a route under the site's base URL.
pub open spec fn permalink_spec(routes_url: Seq<char>, route: Seq<char>) -> Seq<char> {
    if route.len() == 0 {
        routes_url + seq!['/']
    } else {
        routes_url + route + seq!['/']
    }
}

pub fn permalink_for(routes_url: &str, route: &str) -> (r: String)
    ensures
        r@ == permalink_spec(routes_url@, route@),
{
    let mut s = String::from_str(routes_url);
    if route.unicode_len() > 0 {
        s.append(route);
    } else {
        assert(routes_url@ + route@ =~= routes_url@);
    }
    crate::text::string_push(&mut s, '/');
    s
}

/// The document without its leading `@document.meta` block: the text after
/// the first `\n@end` following the directive, less one newline; the whole
/// document when it does not start with the directive or the block is not
/// closed.
pub open spec fn strip_meta_spec(d: Seq<char>) -> Seq<char> {
    let m = "@document.meta"@;
    if m.len() <= d.len() && d.take(m.len() as int) == m {
        let rest = d.skip(m.len() as int);
        match find_seq_from(rest, "\n@end"@, 0) {
            Some(i) => {
                let s = rest.skip(i + "\n@end"@.len());
                if s.len() > 0 && s[0] == '\n' {
                    s.skip(1)
                } else {
                    s
                }
            },
            None => d,
        }
    } else {
        d
    }
}

fn suffix_string(v: &Vec<char>, from: usize) -> (r: String)
    requires
        from <= v@.len(),
    ensures
        r@ == v@.skip(from as int),
{
    let r = string_from_chars(v, from, v.len());
    assert(r@ =~= v@.skip(from as int));
    r
}

/// The document body after its metadata block (see [`strip_meta_spec`]).
pub fn strip_meta_block(document: &str) -> (r: String)
    ensures
        r@ == strip_meta_spec(document@),
{
    let d = chars_of(document);
    let m = chars_of("@document.meta");
    let e = chars_of("\n@end");
    if !matches_chars_at(&d, &m, 0) {
        proof {
            if m@.len() <= d@.len() {
                assert(d@.take(m@.len() as int) =~= d@.subrange(0, m@.len() as int));
            }
        }
        return String::from_str(document);
    }
    assert(d@.take(m@.len() as int) =~= d@.subrange(0, m@.len() as int));
    let ml = m.len();
    let rest_start = ml;
    let mut rest: Vec<char> = Vec::new();
    let mut i = rest_start;
    while i < d.len()
        invariant
            rest_start <= i <= d@.len(),
            rest@ == d@.subrange(rest_start as int, i as int),
        decreases d.len() - i,
    {
        rest.push(d[i]);
        i += 1;
        assert(rest@ =~= d@.subrange(rest_start as int, i as int));
    }
    assert(rest@ =~= d@.skip(m@.len() as int));
    match find_chars(&rest, &e, 0) {
        Some(k) => {
            proof {
                crate::text::lemma_find_seq_from(rest@, e@, 0);
            }
            let from = k + e.len();
            if from < rest.len() && rest[from] == '\n' {
                let r = suffix_string(&rest, from + 1);
                assert(rest@.skip(from as int).skip(1) =~= rest@.skip(from + 1));
                r
            } else {
                suffix_string(&rest, from)
            }
        },
        None => String::from_str(document),
    }
}

// ---------------------------------------------------------------------
// Link targets
// ---------------------------------------------------------------------

/// What a link points at, as far as link extraction cares.
pub enum LinkTarget {
    /// An external URL.
    Url,
    /// A path within the site.
    Path(String),
    /// Anything else (a heading, a footnote, ...).
    Other,
}

/// The page route a link refers to, if it refers to a page of the site: no
/// URL target; its file path, else its first target when that is a path;
/// trimmed, not empty and not a bare fragment; the fragment and a `.norg`
/// extension dropped; not an external `scheme://` address; canonical.
pub open spec fn link_route_spec(filepath: Option<Seq<char>>, targets: Seq<LinkTarget>) -> Option<
    Seq<char>,
> {
    let raw = match filepath {
        Some(f) => Some(f),
        None => if targets.len() > 0 {
            match targets[0] {
                LinkTarget::Path(p) => Some(p@),
                _ => None,
            }
        } else {
            None
        },
    };
    if exists|i: int| 0 <= i < targets.len() && targets[i] is Url {
        None
    } else {
        match raw {
            None => None,
            Some(raw) => {
                let cleaned = trim_ws(raw);
                if cleaned.len() == 0 || cleaned[0] == '#' {
                    None
                } else {
                    let no_frag = match crate::text::index_of_from(cleaned, '#', 0) {
                        Some(k) => cleaned.take(k),
                        None => cleaned,
                    };
                    if contains_seq(no_frag, "://"@) {
                        None
                    } else {
                        let base = if ends_with(no_frag, ".norg"@) {
                            no_frag.take(no_frag.len() - 5)
                        } else {
                            no_frag
                        };
                        if base.len() == 0 {
                            None
                        } else {
                            Some(canonical_route_spec(base))
                        }
                    }
                }
            },
        }
    }
}

fn has_url_target(targets: &Vec<LinkTarget>) -> (r: bool)
    ensures
        r == exists|i: int| 0 <= i < targets@.len() && targets@[i] is Url,
{
    let mut i: usize = 0;
    while i < targets.len()
        invariant
            i <= targets@.len(),
            forall|j: int| 0 <= j < i ==> !(targets@[j] is Url),
        decreases targets.len() - i,
    {
        match &targets[i] {
            LinkTarget::Url => {
                return true;
            },
            _ => {},
        }
        i += 1;
    }
    false
}

/// The route a link refers to (see [`link_route_spec`]).
pub fn link_route(filepath: &Option<String>, targets: &Vec<LinkTarget>) -> (r: Option<String>)
    ensures
        match link_route_spec(
            match filepath {
                Some(f) => Some(f@),
                None => None,
            },
            targets@,
        ) {
            Some(x) => r matches Some(y) && y@ == x,
            None => r is None,
        },
{
    if has_url_target(targets) {
        return None;
    }
    let raw: &str = match filepath {
        Some(f) => f.as_str(),
        None => {
            if targets.len() > 0 {
                match &targets[0] {
                    LinkTarget::Path(p) => p.as_str(),
                    _ => {
                        return None;
                    },
                }
            } else {
                return None;
            }
        },
    };
    let cleaned = trimmed_chars(raw);
    if cleaned.len() == 0 || cleaned[0] == '#' {
        return None;
    }
    let end = match crate::text::find_char(&cleaned, '#', 0) {
        Some(k) => {
            proof {
                crate::text::lemma_index_of_from(cleaned@, '#', 0);
            }
            k
        },
        None => cleaned.len(),
    };
    let mut no_frag: Vec<char> = Vec::new();
    let mut i: usize = 0;
    while i < end
        invariant
            end <= cleaned@.len(),
            i <= end,
            no_frag@ == cleaned@.take(i as int),
        decreases end - i,
    {
        no_frag.push(cleaned[i]);
        i += 1;
        assert(no_frag@ =~= cleaned@.take(i as int));
    }
    assert(end == cleaned@.len() ==> cleaned@.take(end as int) =~= cleaned@);
    let scheme = chars_of("://");
    if find_chars(&no_frag, &scheme, 0).is_some() {
        return None;
    }
    let ext = chars_of(".norg");
    proof {
        reveal_strlit(".norg");
    }
    let n = no_frag.len();
    let mut base_end = n;
    if n >= 5 && matches_chars_at(&no_frag, &ext, n - 5) {
        base_end = n - 5;
    }
    proof {
        if n >= 5 {
            assert(no_frag@.skip(n - 5) =~= no_frag@.subrange(n - 5, n as int));
        }
    }
    if base_end == 0 {
        return None;
    }
    let base = string_from_chars(&no_frag, 0, base_end);
    proof {
        if base_end == n {
            assert(no_frag@.subrange(0, n as int) =~= no_frag@);
        } else {
            assert(no_frag@.subrange(0, base_end as int) =~= no_frag@.take(n - 5));
        }
    }
    Some(canonical_route(base.as_str()))
}

// ---------------------------------------------------------------------
// The links of a document
// ---------------------------------------------------------------------

/// Texts in `str`'s order: character by character (UTF-8 byte order is
/// code point order), a proper prefix first.
pub open spec fn text_lt(a: Seq<char>, b: Seq<char>) -> bool
    decreases a.len(),
{
    if a.len() == 0 {
        b.len() > 0
    } else if b.len() == 0 {
        false
    } else if a[0] != b[0] {
        a[0] < b[0]
    } else {
        text_lt(a.drop_first(), b.drop_first())
    }
}

proof fn lemma_text_lt_irreflexive(a: Seq<char>)
    ensures
        !text_lt(a, a),
    decreases a.len(),
{
    if a.len() > 0 {
        lemma_text_lt_irreflexive(a.drop_first());
    }
}

proof fn lemma_text_lt_trichotomy(a: Seq<char>, b: Seq<char>)
    ensures
        text_lt(a, b) || text_lt(b, a) || a == b,
        !(text_lt(a, b) && text_lt(b, a)),
    decreases a.len(),
{
    if a.len() > 0 && b.len() > 0 {
        lemma_text_lt_trichotomy(a.drop_first(), b.drop_first());
        if a[0] == b[0] && a.drop_first() == b.drop_first() {
            assert(a =~= seq![a[0]] + a.drop_first());
            assert(b =~= seq![b[0]] + b.drop_first());
        }
    } else if a.len() == 0 && b.len() == 0 {
        assert(a =~= b);
    }
}

proof fn lemma_text_lt_transitive(a: Seq<char>, b: Seq<char>, c: Seq<char>)
    requires
        text_lt(a, b),
        text_lt(b, c),
    ensures
        text_lt(a, c),
    decreases a.len(),
{
    if a.len() > 0 && b.len() > 0 && c.len() > 0 {
        if a[0] == b[0] && b[0] == c[0] {
            lemma_text_lt_transitive(a.drop_first(), b.drop_first(), c.drop_first());
        }
    }
}

fn text_less(a: &Vec<char>, b: &Vec<char>) -> (r: bool)
    ensures
        r == text_lt(a@, b@),
{
    let mut i: usize = 0;
    assert(a@.skip(0) =~= a@);
    assert(b@.skip(0) =~= b@);
    while i < a.len() && i < b.len() && a[i] == b[i]
        invariant
            i <= a@.len(),
            i <= b@.len(),
            text_lt(a@, b@) == text_lt(a@.skip(i as int), b@.skip(i as int)),
        decreases a.len() - i,
    {
        assert(a@.skip(i as int).drop_first() =~= a@.skip(i + 1));
        assert(b@.skip(i as int).drop_first() =~= b@.skip(i + 1));
        i += 1;
    }
    if i == a.len() {
        i < b.len()
    } else if i == b.len() {
        false
    } else {
        a[i] < b[i]
    }
}

/// A link of a document: its file path, if any, and its targets.
pub struct DocLink {
    pub filepath: Option<String>,
    pub targets: Vec<LinkTarget>,
}

pub open spec fn doc_link_route(l: DocLink) -> Option<Seq<char>> {
    link_route_spec(
        match l.filepath {
            Some(f) => Some(f@),
            None => None,
        },
        l.targets@,
    )
}

/// Some link among the first `n` of `links` refers to page `route`.
pub open spec fn links_to_upto(links: Seq<DocLink>, n: int, route: Seq<char>) -> bool {
    exists|i: int| 0 <= i < n && i < links.len() && #[trigger] doc_link_route(links[i]) == Some(route)
}

/// Some link of `links` refers to page `route`.
pub open spec fn links_to(links: Seq<DocLink>, route: Seq<char>) -> bool {
    links_to_upto(links, links.len() as int, route)
}

/// The pages a document links to: each route once, in `str` order.
pub fn internal_routes(links: &Vec<DocLink>) -> (r: Vec<String>)
    ensures
        forall|i: int, j: int| 0 <= i < j < r@.len() ==> text_lt(#[trigger] r@[i]@, #[trigger] r@[j]@),
        forall|k: Seq<char>| #[trigger] links_to(links@, k) <==> names_have(r@, k),
{
    let mut out: Vec<String> = Vec::new();
    let mut chars: Vec<Vec<char>> = Vec::new();
    let mut n: usize = 0;
    while n < links.len()
        invariant
            n <= links@.len(),
            chars@.len() == out@.len(),
            forall|i: int| 0 <= i < out@.len() ==> (#[trigger] chars@[i])@ == out@[i]@,
            forall|i: int, j: int| 0 <= i < j < out@.len() ==> text_lt(#[trigger] out@[i]@, #[trigger] out@[j]@),
            forall|k: Seq<char>| #[trigger] links_to_upto(links@, n as int, k) <==> names_have(out@, k),
        decreases links.len() - n,
    {
        let route = link_route(&links[n].filepath, &links[n].targets);
        let ghost before = out@;
        let ghost before_chars = chars@;
        match route {
            Some(rt) => {
                let rc = chars_of(rt.as_str());
                let mut p: usize = 0;
                while p < chars.len() && text_less(&chars[p], &rc)
                    invariant
                        p <= chars@.len(),
                        chars@ == before_chars,
                        out@ == before,
                        chars@.len() == out@.len(),
                        forall|i: int| 0 <= i < out@.len() ==> (#[trigger] chars@[i])@ == out@[i]@,
                        forall|i: int| 0 <= i < p ==> text_lt(out@[i]@, rc@),
                    decreases chars.len() - p,
                {
                    p += 1;
                }
                let dup = p < chars.len() && !text_less(&rc, &chars[p]);
                proof {
                    if p < chars@.len() {
                        lemma_text_lt_trichotomy(out@[p as int]@, rc@);
                    }
                    lemma_text_lt_irreflexive(rc@);
                }
                if !dup {
                    proof {
                        assert forall|i: int| p <= i < out@.len() implies text_lt(rc@, #[trigger] out@[i]@) by {
                            lemma_text_lt_trichotomy(out@[p as int]@, rc@);
                            if i > p {
                                lemma_text_lt_transitive(rc@, out@[p as int]@, out@[i]@);
                            }
                        }
                    }
                    out.insert(p, rt);
                    chars.insert(p, rc);
                    proof {
                        assert forall|i: int| 0 <= i < out@.len() implies (#[trigger] chars@[i])@ == out@[i]@ by {
                            if i < p {
                            } else if i > p {
                                assert(chars@[i] == before_chars[i - 1]);
                                assert(out@[i] == before[i - 1]);
                            }
                        }
                        assert forall|i: int, j: int| 0 <= i < j < out@.len() implies text_lt(#[trigger] out@[i]@, #[trigger] out@[j]@) by {
                            if j < p {
                                assert(out@[i] == before[i] && out@[j] == before[j]);
                            } else if j == p {
                                assert(out@[i] == before[i]);
                            } else if i < p {
                                assert(out@[i] == before[i] && out@[j] == before[j - 1]);
                            } else if i == p {
                                assert(out@[j] == before[j - 1]);
                            } else {
                                assert(out@[i] == before[i - 1] && out@[j] == before[j - 1]);
                            }
                        }
                    }
                }
                proof {
                    assert forall|k: Seq<char>| #[trigger] links_to_upto(links@, n + 1, k) <==> names_have(out@, k) by {
                        assert(links_to_upto(links@, n as int, k) <==> names_have(before, k));
                        if links_to_upto(links@, n + 1, k) {
                            let m = choose|m: int| 0 <= m < n + 1 && m < links@.len() && #[trigger] doc_link_route(links@[m]) == Some(k);
                            if m < n {
                                assert(links_to_upto(links@, n as int, k));
                                let i = choose|i: int| 0 <= i < before.len() && (#[trigger] before[i])@ == k;
                                if dup {
                                    assert(out@[i]@ == k);
                                } else if i < p {
                                    assert(out@[i]@ == k);
                                } else {
                                    assert(out@[i + 1]@ == k);
                                }
                            } else {
                                if dup {
                                    lemma_text_lt_trichotomy(out@[p as int]@, rc@);
                                    assert(out@[p as int]@ == k);
                                } else {
                                    assert(out@[p as int]@ == k);
                                }
                            }
                        }
                        if names_have(out@, k) {
                            let i = choose|i: int| 0 <= i < out@.len() && (#[trigger] out@[i])@ == k;
                            if dup {
                                assert(before[i]@ == k);
                                assert(names_have(before, k));
                            } else if i < p {
                                assert(before[i]@ == k);
                                assert(names_have(before, k));
                            } else if i == p {
                                assert(doc_link_route(links@[n as int]) == Some(k));
                            } else {
                                assert(before[i - 1]@ == k);
                                assert(names_have(before, k));
                            }
                            if names_have(before, k) {
                                let m = choose|m: int| 0 <= m < n && m < links@.len() && #[trigger] doc_link_route(links@[m]) == Some(k);
                            }
                        }
                    }
                }
            },
            None => {
                proof {
                    assert forall|k: Seq<char>| #[trigger] links_to_upto(links@, n + 1, k) <==> names_have(out@, k) by {
                        assert(links_to_upto(links@, n as int, k) <==> names_have(before, k));
                        if links_to_upto(links@, n + 1, k) {
                            let m = choose|m: int| 0 <= m < n + 1 && m < links@.len() && #[trigger] doc_link_route(links@[m]) == Some(k);
                            assert(m < n);
                            assert(links_to_upto(links@, n as int, k));
                        }
                        if names_have(out@, k) {
                            assert(names_have(before, k));
                            let m = choose|m: int| 0 <= m < n && m < links@.len() && #[trigger] doc_link_route(links@[m]) == Some(k);
                            assert(links_to_upto(links@, n + 1, k));
                        }
                    }
                }
            },
        }
        n += 1;
    }
    proof {
        assert forall|k: Seq<char>| #[trigger] links_to(links@, k) <==> names_have(out@, k) by {
            assert(links_to(links@, k) == links_to_upto(links@, links@.len() as int, k));
        }
    }
    out
}

// ---------------------------------------------------------------------
// Backlinks
// ---------------------------------------------------------------------

/// A page that references the current one.
pub struct Backlink {
    pub url: String,
    pub title: String,
}

/// The links of one page: its route, its title, and the routes it links
/// to.
pub struct PageLinks {
    pub route: String,
    pub title: String,
    pub links: Vec<String>,
}

pub open spec fn backlink_view(b: Backlink) -> (Seq<char>, Seq<char>) {
    (b.url@, b.title@)
}

pub open spec fn backlinks_view(v: Seq<Backlink>) -> Seq<(Seq<char>, Seq<char>)> {
    Seq::new(v.len(), |i: int| backlink_view(v[i]))
}

/// The backlink a page contributes.
pub open spec fn backlink_of(routes_url: Seq<char>, p: PageLinks) -> (Seq<char>, Seq<char>) {
    (permalink_spec(routes_url, p.route@), p.title@)
}

/// Occurrences of `t` among `links`.
pub open spec fn count_links(links: Seq<String>, t: Seq<char>) -> nat
    decreases links.len(),
{
    if links.len() == 0 {
        0
    } else {
        count_links(links.drop_last(), t) + if links.last()@ == t {
            1nat
        } else {
            0nat
        }
    }
}

/// What page `p` contributes to the backlinks of `t`: its backlink once per
/// link to `t`, none when `t` is its own route.
pub open spec fn contribution(routes_url: Seq<char>, p: PageLinks, t: Seq<char>) -> Seq<
    (Seq<char>, Seq<char>),
> {
    if p.route@ == t {
        seq![]
    } else {
        Seq::new(count_links(p.links@, t), |i: int| backlink_of(routes_url, p))
    }
}

/// Backlinks of `t` from the first `n` pages, in order.
pub open spec fn backlinks_spec(routes_url: Seq<char>, pages: Seq<PageLinks>, n: int, t: Seq<char>) -> Seq<
    (Seq<char>, Seq<char>),
>
    decreases n,
{
    if n <= 0 {
        seq![]
    } else {
        backlinks_spec(routes_url, pages, n - 1, t) + contribution(routes_url, pages[n - 1], t)
    }
}

pub open spec fn map_keys_view(m: Seq<(String, Vec<Backlink>)>) -> Seq<(Seq<char>, Seq<(Seq<char>, Seq<char>)>)> {
    Seq::new(m.len(), |i: int| (m[i].0@, backlinks_view(m[i].1@)))
}

/// The backlinks recorded for `t` (none when `t` has no entry).
pub open spec fn map_get(m: Seq<(Seq<char>, Seq<(Seq<char>, Seq<char>)>)>, t: Seq<char>) -> Seq<
    (Seq<char>, Seq<char>),
> {
    match lookup(m, t) {
        Some(v) => v,
        None => seq![],
    }
}

proof fn lemma_lookup_distinct<V>(m: Seq<(Seq<char>, V)>, j: int)
    requires
        keys_distinct(m),
        0 <= j < m.len(),
    ensures
        lookup(m, m[j].0) == Some(m[j].1),
    decreases m.len(),
{
    if j > 0 {
        assert(m[0].0 != m[j].0);
        lemma_lookup_distinct(m.drop_first(), j - 1);
    }
}

proof fn lemma_lookup_absent<V>(m: Seq<(Seq<char>, V)>, t: Seq<char>)
    requires
        forall|j: int| 0 <= j < m.len() ==> m[j].0 != t,
    ensures
        lookup(m, t) is None,
    decreases m.len(),
{
    if m.len() > 0 {
        lemma_lookup_absent(m.drop_first(), t);
    }
}

proof fn lemma_lookup_update<V>(m: Seq<(Seq<char>, V)>, j: int, v: V, t: Seq<char>)
    requires
        keys_distinct(m),
        0 <= j < m.len(),
    ensures
        lookup(m.update(j, (m[j].0, v)), t) == if t == m[j].0 {
            Some(v)
        } else {
            lookup(m, t)
        },
    decreases m.len(),
{
    let m2 = m.update(j, (m[j].0, v));
    if j == 0 {
        assert(m2.drop_first() =~= m.drop_first());
    } else {
        assert(m2.drop_first() =~= m.drop_first().update(j - 1, (m[j].0, v)));
        lemma_lookup_update(m.drop_first(), j - 1, v, t);
        assert(m[0].0 != m[j].0);
    }
}

proof fn lemma_lookup_push<V>(m: Seq<(Seq<char>, V)>, k: Seq<char>, v: V, t: Seq<char>)
    requires
        forall|j: int| 0 <= j < m.len() ==> m[j].0 != k,
    ensures
        lookup(m.push((k, v)), t) == if t == k {
            Some(v)
        } else {
            lookup(m, t)
        },
    decreases m.len(),
{
    let mp = m.push((k, v));
    assert(mp[0] == if m.len() == 0 {
        (k, v)
    } else {
        m[0]
    });
    if m.len() == 0 {
        assert(mp.drop_first() =~= Seq::<(Seq<char>, V)>::empty());
    } else {
        assert(mp.drop_first() =~= m.drop_first().push((k, v)));
        assert forall|j: int| 0 <= j < m.drop_first().len() implies m.drop_first()[j].0 != k by {
            assert(m.drop_first()[j] == m[j + 1]);
        }
        lemma_lookup_push(m.drop_first(), k, v, t);
        assert(m[0].0 != k);
    }
}

fn clone_backlinks(v: &Vec<Backlink>) -> (r: Vec<Backlink>)
    ensures
        backlinks_view(r@) == backlinks_view(v@),
{
    let mut out: Vec<Backlink> = Vec::new();
    let mut i: usize = 0;
    while i < v.len()
        invariant
            i <= v@.len(),
            backlinks_view(out@) == backlinks_view(v@).take(i as int),
        decreases v.len() - i,
    {
        let bk = Backlink { url: v[i].url.clone(), title: v[i].title.clone() };
        assert(backlink_view(bk) == backlink_view(v@[i as int]));
        let ghost before = out@;
        out.push(bk);
        assert(backlinks_view(out@) =~= backlinks_view(before).push(backlink_view(bk)));
        assert(backlinks_view(out@) =~= backlinks_view(v@).take(i + 1));
        i += 1;
    }
    assert(backlinks_view(v@).take(i as int) =~= backlinks_view(v@));
    out
}

/// Appends backlink `b` to the entry of `key`, creating it if needed.
fn add_backlink(map: &mut Vec<(String, Vec<Backlink>)>, key: &String, b: Backlink)
    requires
        keys_distinct(map_keys_view(old(map)@)),
        forall|j: int| 0 <= j < old(map)@.len() ==> (#[trigger] old(map)@[j]).1@.len() > 0,
    ensures
        keys_distinct(map_keys_view(final(map)@)),
        forall|j: int| 0 <= j < final(map)@.len() ==> (#[trigger] final(map)@[j]).1@.len() > 0,
        forall|t: Seq<char>|
            #![trigger map_get(map_keys_view(final(map)@), t)]
            map_get(map_keys_view(final(map)@), t) == if t == key@ {
                map_get(map_keys_view(old(map)@), t).push(backlink_view(b))
            } else {
                map_get(map_keys_view(old(map)@), t)
            },
{
    let ghost m0 = map_keys_view(map@);
    assert(m0 == map_keys_view(old(map)@));
    let mut i: usize = 0;
    while i < map.len()
        invariant
            i <= map@.len(),
            m0 == map_keys_view(map@),
            m0 == map_keys_view(old(map)@),
            keys_distinct(m0),
            forall|j: int| 0 <= j < map@.len() ==> (#[trigger] map@[j]).1@.len() > 0,
            forall|j: int| 0 <= j < i ==> (#[trigger] map@[j]).0@ != key@,
        decreases map.len() - i,
    {
        if crate::text::str_equal(map[i].0.as_str(), key.as_str()) {
            let ghost bv = backlink_view(b);
            let mut entry = clone_backlinks(&map[i].1);
            let ghost old_entry = entry@;
            entry.push(b);
            let k2 = map[i].0.clone();
            map.set(i, (k2, entry));
            proof {
                assert(m0[i as int].0 == key@);
                let nv = backlinks_view(old_entry).push(bv);
                assert(backlinks_view(map@[i as int].1@) =~= nv);
                assert(map_keys_view(map@) =~= m0.update(i as int, (m0[i as int].0, nv)));
                lemma_lookup_distinct(m0, i as int);
                assert forall|t: Seq<char>|
                    #![trigger map_get(map_keys_view(map@), t)]
                    map_get(map_keys_view(map@), t) == if t == key@ {
                        map_get(m0, t).push(bv)
                    } else {
                        map_get(m0, t)
                    } by {
                    lemma_lookup_update(m0, i as int, nv, t);
                    if t == key@ {
                        assert(map_get(m0, t) == backlinks_view(old_entry));
                    }
                }
                assert forall|a: int, c: int|
                    0 <= a < c < map_keys_view(map@).len() implies map_keys_view(map@)[a].0
                    != map_keys_view(map@)[c].0 by {
                    assert(map_keys_view(map@)[a].0 == m0[a].0);
                    assert(map_keys_view(map@)[c].0 == m0[c].0);
                }
            }
            return;
        }
        i += 1;
    }
    let ghost bv = backlink_view(b);
    let mut entry: Vec<Backlink> = Vec::new();
    entry.push(b);
    map.push((key.clone(), entry));
    proof {
        assert(backlinks_view(map@[map@.len() - 1].1@) =~= seq![bv]);
        assert(map_keys_view(map@) =~= m0.push((key@, seq![bv])));
        assert forall|t: Seq<char>|
            #![trigger map_get(map_keys_view(map@), t)]
            map_get(map_keys_view(map@), t) == if t == key@ {
                map_get(m0, t).push(bv)
            } else {
                map_get(m0, t)
            } by {
            lemma_lookup_push(m0, key@, seq![bv], t);
            if t == key@ {
                lemma_lookup_absent(m0, key@);
                assert(map_get(m0, t).push(bv) =~= seq![bv]);
            }
        }
        assert forall|a: int, c: int|
            0 <= a < c < map_keys_view(map@).len() implies map_keys_view(map@)[a].0
            != map_keys_view(map@)[c].0 by {
            if c == m0.len() {
                assert(map@[a].0@ != key@);
            }
        }
    }
}


/// What page `p` has contributed to the backlinks of `t` after its first
/// `k` links.
pub open spec fn partial_contribution(routes_url: Seq<char>, p: PageLinks, k: int, t: Seq<char>) -> Seq<
    (Seq<char>, Seq<char>),
> {
    if p.route@ == t {
        seq![]
    } else {
        Seq::new(count_links(p.links@.take(k), t), |i: int| backlink_of(routes_url, p))
    }
}

/// Inverts the links of all pages into backlinks: for each linked route,
/// the pages that link to it (once per link, in page order), a page's
/// links to its own route left out.
pub fn invert_links(pages: &Vec<PageLinks>, routes_url: &str) -> (r: Vec<(String, Vec<Backlink>)>)
    ensures
        keys_distinct(map_keys_view(r@)),
        forall|t: Seq<char>|
            #[trigger] map_get(map_keys_view(r@), t) == backlinks_spec(
                routes_url@,
                pages@,
                pages@.len() as int,
                t,
            ),
        forall|j: int| 0 <= j < r@.len() ==> (#[trigger] r@[j]).1@.len() > 0,
{
    let mut map: Vec<(String, Vec<Backlink>)> = Vec::new();
    let mut n: usize = 0;
    proof {
        assert forall|t: Seq<char>| #[trigger]
            map_get(map_keys_view(map@), t) == backlinks_spec(routes_url@, pages@, 0, t) by {
            assert(map_keys_view(map@) =~= Seq::<(Seq<char>, Seq<(Seq<char>, Seq<char>)>)>::empty());
        }
    }
    while n < pages.len()
        invariant
            n <= pages@.len(),
            keys_distinct(map_keys_view(map@)),
            forall|t: Seq<char>|
                #[trigger] map_get(map_keys_view(map@), t) == backlinks_spec(
                    routes_url@,
                    pages@,
                    n as int,
                    t,
                ),
            forall|j: int| 0 <= j < map@.len() ==> (#[trigger] map@[j]).1@.len() > 0,
        decreases pages.len() - n,
    {
        let page = &pages[n];
        let ghost base = map_keys_view(map@);
        let mut k: usize = 0;
        proof {
            assert forall|t: Seq<char>| #[trigger] map_get(map_keys_view(map@), t)
                == backlinks_spec(routes_url@, pages@, n as int, t) + partial_contribution(
                routes_url@,
                *page,
                0,
                t,
            ) by {
                assert(page.links@.take(0) =~= Seq::<String>::empty());
                assert(partial_contribution(routes_url@, *page, 0, t) =~= seq![]);
            }
        }
        while k < page.links.len()
            invariant
                n < pages@.len(),
                *page == pages@[n as int],
                k <= page.links@.len(),
                keys_distinct(map_keys_view(map@)),
                forall|t: Seq<char>|
                    #[trigger] map_get(map_keys_view(map@), t) == backlinks_spec(
                        routes_url@,
                        pages@,
                        n as int,
                        t,
                    ) + partial_contribution(routes_url@, *page, k as int, t),
                forall|j: int| 0 <= j < map@.len() ==> (#[trigger] map@[j]).1@.len() > 0,
            decreases page.links.len() - k,
        {
            let target = &page.links[k];
            let ghost before = map_keys_view(map@);
            proof {
                assert(page.links@.take(k + 1).drop_last() =~= page.links@.take(k as int));
                assert(page.links@.take(k + 1).last() == *target);
            }
            if !crate::text::str_equal(target.as_str(), page.route.as_str()) {
                let url = permalink_for(routes_url, page.route.as_str());
                let b = Backlink { url, title: page.title.clone() };
                add_backlink(&mut map, target, b);
                proof {
                    assert forall|t: Seq<char>| #[trigger] map_get(map_keys_view(map@), t)
                        == backlinks_spec(routes_url@, pages@, n as int, t) + partial_contribution(
                        routes_url@,
                        *page,
                        k + 1,
                        t,
                    ) by {
                        assert(map_get(before, t) == backlinks_spec(
                            routes_url@,
                            pages@,
                            n as int,
                            t,
                        ) + partial_contribution(routes_url@, *page, k as int, t));
                        if t == target@ {
                            assert(partial_contribution(routes_url@, *page, k + 1, t)
                                =~= partial_contribution(routes_url@, *page, k as int, t).push(
                                backlink_of(routes_url@, *page),
                            ));
                        } else {
                            assert(partial_contribution(routes_url@, *page, k + 1, t)
                                =~= partial_contribution(routes_url@, *page, k as int, t));
                        }
                    }
                }
            } else {
                proof {
                    assert forall|t: Seq<char>| #[trigger] map_get(map_keys_view(map@), t)
                        == backlinks_spec(routes_url@, pages@, n as int, t) + partial_contribution(
                        routes_url@,
                        *page,
                        k + 1,
                        t,
                    ) by {
                        assert(partial_contribution(routes_url@, *page, k + 1, t)
                            =~= partial_contribution(routes_url@, *page, k as int, t));
                    }
                }
            }
            k += 1;
        }
        proof {
            assert(page.links@.take(k as int) =~= page.links@);
            assert forall|t: Seq<char>| #[trigger] map_get(map_keys_view(map@), t)
                == backlinks_spec(routes_url@, pages@, n + 1, t) by {
                assert(partial_contribution(routes_url@, *page, k as int, t) =~= contribution(
                    routes_url@,
                    pages@[n as int],
                    t,
                ));
            }
        }
        n += 1;
    }
    map
}


proof fn lemma_count_links_pos(links: Seq<String>, t: Seq<char>)
    ensures
        count_links(links, t) > 0 <==> exists|k: int| 0 <= k < links.len() && (#[trigger] links[k])@ == t,
    decreases links.len(),
{
    if links.len() > 0 {
        lemma_count_links_pos(links.drop_last(), t);
        if exists|k: int| 0 <= k < links.len() && (#[trigger] links[k])@ == t {
            let k = choose|k: int| 0 <= k < links.len() && (#[trigger] links[k])@ == t;
            if k < links.len() - 1 {
                assert(links.drop_last()[k] == links[k]);
            }
        }
        if exists|k: int|
            0 <= k < links.drop_last().len() && (#[trigger] links.drop_last()[k])@ == t {
            let k = choose|k: int|
                0 <= k < links.drop_last().len() && (#[trigger] links.drop_last()[k])@ == t;
            assert(links[k] == links.drop_last()[k]);
        }
    }
}

/// The backlinks of a route are exactly the pages that link to it, other
/// than the route's own page: a page is never its own backlink.
pub proof fn lemma_backlinks_invert(
    routes_url: Seq<char>,
    pages: Seq<PageLinks>,
    n: int,
    t: Seq<char>,
    b: (Seq<char>, Seq<char>),
)
    requires
        0 <= n <= pages.len(),
    ensures
        backlinks_spec(routes_url, pages, n, t).contains(b) <==> exists|i: int|
            0 <= i < n && pages[i].route@ != t && (exists|k: int|
                0 <= k < pages[i].links@.len() && (#[trigger] pages[i].links@[k])@ == t) && b
                == backlink_of(routes_url, #[trigger] pages[i]),
    decreases n,
{
    if n > 0 {
        lemma_backlinks_invert(routes_url, pages, n - 1, t, b);
        let prev = backlinks_spec(routes_url, pages, n - 1, t);
        let c = contribution(routes_url, pages[n - 1], t);
        let p = pages[n - 1];
        lemma_count_links_pos(p.links@, t);
        assert(backlinks_spec(routes_url, pages, n, t) == prev + c);
        if (prev + c).contains(b) {
            let j = choose|j: int| 0 <= j < (prev + c).len() && (prev + c)[j] == b;
            if j >= prev.len() {
                assert(c[j - prev.len()] == b);
                assert(p.route@ != t);
                assert(count_links(p.links@, t) > 0);
                assert(b == backlink_of(routes_url, pages[n - 1]));
            } else {
                assert(prev[j] == b);
                assert(prev.contains(b));
            }
        }
        if exists|i: int|
            0 <= i < n && pages[i].route@ != t && (exists|k: int|
                0 <= k < pages[i].links@.len() && (#[trigger] pages[i].links@[k])@ == t) && b
                == backlink_of(routes_url, #[trigger] pages[i]) {
            let i = choose|i: int|
                0 <= i < n && pages[i].route@ != t && (exists|k: int|
                    0 <= k < pages[i].links@.len() && (#[trigger] pages[i].links@[k])@ == t) && b
                    == backlink_of(routes_url, #[trigger] pages[i]);
            if i < n - 1 {
                assert(prev.contains(b));
                let j = choose|j: int| 0 <= j < prev.len() && prev[j] == b;
                assert((prev + c)[j] == b);
            } else {
                assert(c.len() > 0);
                assert(c[0] == b);
                assert((prev + c)[prev.len() as int] == b);
            }
        }
    }
}

/// The bytes hashed for a page's backlinks: for each backlink its url and
/// its title, each followed by the byte `0xff` (how a string is fed to a
/// hasher).
pub open spec fn signature_writes(links: Seq<Backlink>) -> Seq<Seq<u8>>
    decreases links.len(),
{
    if links.len() == 0 {
        seq![]
    } else {
        let l = links.last();
        signature_writes(links.drop_last()) + seq![
            encode_utf8(l.url@),
            seq![0xffu8],
            encode_utf8(l.title@),
            seq![0xffu8],
        ]
    }
}

/// Change-detection signature of a page's backlinks: `None` when it has
/// none, else the default hasher's digest of their urls and titles.
pub fn signature(backlinks: &Vec<Backlink>) -> (r: Option<u64>)
    ensures
        backlinks@.len() == 0 ==> r is None,
        backlinks@.len() > 0 ==> r == Some(DefaultHasher::spec_finish(signature_writes(backlinks@))),
{
    if backlinks.len() == 0 {
        return None;
    }
    let mut hasher = DefaultHasher::new();
    let sep: [u8; 1] = [0xff];
    let mut i: usize = 0;
    while i < backlinks.len()
        invariant
            i <= backlinks@.len(),
            sep@ == seq![0xffu8],
            hasher@ == signature_writes(backlinks@.take(i as int)),
        decreases backlinks.len() - i,
    {
        assert(backlinks@.take(i + 1).drop_last() =~= backlinks@.take(i as int));
        hasher.write(backlinks[i].url.as_str().as_bytes());
        hasher.write(sep.as_slice());
        hasher.write(backlinks[i].title.as_str().as_bytes());
        hasher.write(sep.as_slice());
        assert(hasher@ =~= signature_writes(backlinks@.take(i + 1)));
        i += 1;
    }
    assert(backlinks@.take(backlinks@.len() as int) =~= backlinks@);
    Some(hasher.finish())
}

} // verus!
