//! Table of contents: the heading tree built from a flat list of
//! (level, title, id) entries, and its rendering as nested HTML lists.
use vstd::prelude::*;

use vstd::string::StringSliceAdditionalSpecFns;
use vstd::utf8::encode_utf8;

use crate::text::{chars_of, string_push};

verus! {

// ---------------------------------------------------------------------
// Input and tree
// ---------------------------------------------------------------------

/// One entry of a TOC list, as far as the builder reads it.
pub enum TocEntry {
    /// The entry is not a map.
    NotMap,
    /// A map: its `level` when that is an integer, its `title` and `id`
    /// when those are strings.
    Fields { level: Option<i64>, title: Option<String>, id: Option<String> },
}

/// The TOC value handed to the builder.
pub enum TocValue {
    /// The value is not an array.
    NotArray,
    Entries(Vec<TocEntry>),
}

/// A heading of the tree; `children` index into the tree's nodes.
pub struct TocNode {
    pub level: u8,
    pub title: String,
    pub id: String,
    pub children: Vec<usize>,
}

pub struct TocTree {
    pub nodes: Vec<TocNode>,
    pub root_indices: Vec<usize>,
}

/// The level an entry is filed under (`i64` truncated to `u8`).
pub open spec fn entry_level(e: TocEntry) -> u8 {
    match e {
        TocEntry::Fields { level: Some(l), .. } => l as u8,
        _ => 0,
    }
}

pub open spec fn levels_of(es: Seq<TocEntry>) -> Seq<u8> {
    Seq::new(es.len(), |i: int| entry_level(es[i]))
}

/// The nearest entry before `i`, searching down from `j`, with a lower
/// level than entry `i`.
pub open spec fn smaller_from(levels: Seq<u8>, i: int, j: int) -> Option<int>
    decreases j + 1,
{
    if j < 0 {
        None
    } else if levels[j] < levels[i] {
        Some(j)
    } else {
        smaller_from(levels, i, j - 1)
    }
}

/// Parent of heading `i`: the nearest heading before it with a lower
/// level.
pub open spec fn parent_of(levels: Seq<u8>, i: int) -> Option<int> {
    smaller_from(levels, i, i - 1)
}

/// Children of heading `j` among the first `n` headings, in order.
pub open spec fn kids(levels: Seq<u8>, j: int, n: int) -> Seq<int>
    decreases n,
{
    if n <= 0 {
        seq![]
    } else {
        kids(levels, j, n - 1) + if parent_of(levels, n - 1) == Some(j) {
            seq![n - 1]
        } else {
            seq![]
        }
    }
}

/// Headings without a parent among the first `n`, in order.
pub open spec fn roots(levels: Seq<u8>, n: int) -> Seq<int>
    decreases n,
{
    if n <= 0 {
        seq![]
    } else {
        roots(levels, n - 1) + if parent_of(levels, n - 1) is None {
            seq![n - 1]
        } else {
            seq![]
        }
    }
}

pub open spec fn usizes(v: Seq<usize>) -> Seq<int> {
    Seq::new(v.len(), |i: int| v[i] as int)
}

/// `tree` is the heading tree of `entries`: one node per entry with its
/// level, title and id (empty when missing), each node's children the
/// entries whose parent it is, and the roots those without one.
pub open spec fn is_tree_of(tree: TocTree, es: Seq<TocEntry>) -> bool {
    let levels = levels_of(es);
    &&& tree.nodes@.len() == es.len()
    &&& forall|i: int|
        0 <= i < es.len() ==> {
            let nd = #[trigger] tree.nodes@[i];
            &&& nd.level == levels[i]
            &&& (es[i] matches TocEntry::Fields { title, id, .. } && nd.title@ == match title {
                Some(t) => t@,
                None => seq![],
            } && nd.id@ == match id {
                Some(t) => t@,
                None => seq![],
            })
            &&& usizes(nd.children@) == kids(levels, i, es.len() as int)
        }
    &&& usizes(tree.root_indices@) == roots(levels, es.len() as int)
}

/// The error of the first faulty entry from `i` on: one that is not a map
/// or has no integer level.
pub open spec fn first_fault(es: Seq<TocEntry>, i: int) -> Option<Seq<char>>
    decreases es.len() - i,
{
    if !(0 <= i < es.len()) {
        None
    } else {
        match es[i] {
            TocEntry::NotMap => Some("TOC entry must be a map"@),
            TocEntry::Fields { level: None, .. } => Some("Missing or invalid level"@),
            _ => first_fault(es, i + 1),
        }
    }
}

/// Why a TOC value is refused, if it is.
pub open spec fn toc_error(v: TocValue) -> Option<Seq<char>> {
    match v {
        TocValue::NotArray => Some("TOC must be an array"@),
        TocValue::Entries(es) => first_fault(es@, 0),
    }
}

/// No heading between `j` and `n` has a level at or below that of `j`: `j`
/// can still be the parent of a later heading.
pub open spec fn visible(levels: Seq<u8>, j: int, n: int) -> bool {
    forall|k: int| j < k < n ==> levels[j] < #[trigger] levels[k]
}

proof fn lemma_smaller_from(levels: Seq<u8>, i: int, j: int)
    requires
        0 <= i < levels.len(),
        j < levels.len(),
    ensures
        match smaller_from(levels, i, j) {
            Some(p) => 0 <= p <= j && levels[p] < levels[i] && forall|k: int|
                p < k <= j ==> levels[i] <= #[trigger] levels[k],
            None => forall|k: int| 0 <= k <= j ==> levels[i] <= #[trigger] levels[k],
        },
    decreases j + 1,
{
    if j >= 0 && levels[j] >= levels[i] {
        lemma_smaller_from(levels, i, j - 1);
    }
}

fn copy_usizes(v: &Vec<usize>) -> (r: Vec<usize>)
    ensures
        r@ == v@,
{
    let mut out: Vec<usize> = Vec::new();
    let mut i: usize = 0;
    while i < v.len()
        invariant
            i <= v@.len(),
            out@ == v@.take(i as int),
        decreases v.len() - i,
    {
        out.push(v[i]);
        i += 1;
        assert(out@ =~= v@.take(i as int));
    }
    assert(v@.take(i as int) =~= v@);
    out
}

fn text_or_empty(s: &Option<String>) -> (r: String)
    ensures
        r@ == match s {
            Some(t) => t@,
            None => seq![],
        },
{
    match s {
        Some(t) => t.clone(),
        None => String::new(),
    }
}

/// Builds the heading tree of a TOC value (see [`is_tree_of`]), or the
/// error of the first faulty entry.
#[verifier::rlimit(40)]
pub fn parse_toc(value: &TocValue) -> (r: Result<TocTree, String>)
    ensures
        match toc_error(*value) {
            Some(e) => r matches Err(x) && x@ == e,
            None => value matches TocValue::Entries(es) && r matches Ok(t) && is_tree_of(t, es@),
        },
{
    let es = match value {
        TocValue::NotArray => {
            return Err(String::from_str("TOC must be an array"));
        },
        TocValue::Entries(es) => es,
    };
    let ghost levels = levels_of(es@);
    let ghost len = es@.len() as int;
    let mut lv: Vec<u8> = Vec::new();
    let mut titles: Vec<String> = Vec::new();
    let mut ids: Vec<String> = Vec::new();
    let mut kid_lists: Vec<Vec<usize>> = Vec::new();
    let mut root_indices: Vec<usize> = Vec::new();
    let mut stack: Vec<usize> = Vec::new();
    let mut n: usize = 0;
    while n < es.len()
        invariant
            n <= es@.len(),
            *value == TocValue::Entries(*es),
            levels == levels_of(es@),
            len == es@.len(),
            first_fault(es@, 0) == first_fault(es@, n as int),
            lv@ == levels.take(n as int),
            titles@.len() == n,
            ids@.len() == n,
            kid_lists@.len() == n,
            forall|i: int|
                0 <= i < n ==> ((#[trigger] es@[i]) matches TocEntry::Fields { title, id, level }
                    && level is Some && titles@[i]@ == match title {
                    Some(t) => t@,
                    None => seq![],
                } && ids@[i]@ == match id {
                    Some(t) => t@,
                    None => seq![],
                }),
            forall|j: int|
                0 <= j < n ==> usizes(#[trigger] kid_lists@[j]@) == kids(levels, j, n as int),
            usizes(root_indices@) == roots(levels, n as int),
            forall|a: int, b: int|
                0 <= a < b < stack@.len() ==> stack@[a] < stack@[b] && levels[stack@[a] as int]
                    < levels[stack@[b] as int],
            forall|t: int| 0 <= t < stack@.len() ==> stack@[t] < n,
            forall|j: int|
                0 <= j < n ==> (visible(levels, j, n as int) <==> exists|t: int|
                    0 <= t < stack@.len() && stack@[t] == j),
        decreases es.len() - n,
    {
        let (level, title, id) = match &es[n] {
            TocEntry::NotMap => {
                assert(first_fault(es@, n as int) == Some("TOC entry must be a map"@));
                return Err(String::from_str("TOC entry must be a map"));
            },
            TocEntry::Fields { level, title, id } => match level {
                None => {
                    assert(first_fault(es@, n as int) == Some("Missing or invalid level"@));
                    return Err(String::from_str("Missing or invalid level"));
                },
                Some(l) => (#[verifier::truncate] (*l as u8), title, id),
            },
        };
        assert(first_fault(es@, n as int) == first_fault(es@, n + 1));
        assert(level == levels[n as int]);
        proof {
            lemma_smaller_from(levels, n as int, n - 1);
        }
        // the parent: the topmost stacked heading with a lower level
        let mut t = stack.len();
        let mut parent: Option<usize> = None;
        let mut found = false;
        while t > 0 && !found
            invariant
                t <= stack@.len(),
                found ==> t > 0 && parent == Some(stack@[t - 1]) && levels[stack@[t - 1] as int]
                    < level,
                !found ==> parent is None,
                forall|u: int| t <= u < stack@.len() ==> level <= #[trigger] levels[stack@[u] as int],
                forall|u: int| 0 <= u < stack@.len() ==> stack@[u] < lv@.len(),
                lv@ == levels.take(n as int),
                n < levels.len(),
            decreases t + if found {
                0int
            } else {
                1int
            },
        {
            let s = stack[t - 1];
            if lv[s] < level {
                parent = Some(s);
                found = true;
            } else {
                t -= 1;
            }
        }
        proof {
            match parent_of(levels, n as int) {
                Some(q) => {
                    assert(visible(levels, q, n as int));
                    let tq = choose|tq: int| 0 <= tq < stack@.len() && stack@[tq] == q;
                    match parent {
                        Some(p) => {
                            assert(p == stack@[t - 1]);
                            if tq > t - 1 {
                                assert(level <= levels[stack@[tq] as int]);
                            }
                            if p > q {
                                assert(levels[n as int] <= levels[p as int]);
                            }
                            assert(p == q);
                        },
                        None => {
                            assert(level <= levels[stack@[tq] as int]);
                        },
                    }
                },
                None => {
                    match parent {
                        Some(p) => {
                            assert(p == stack@[t - 1]);
                            assert(levels[n as int] <= levels[p as int]);
                        },
                        None => {},
                    }
                },
            }
        }
        // file the heading under its parent, or among the roots
        let ghost old_kids = kid_lists@;
        let ghost old_roots = root_indices@;
        match parent {
            Some(p) => {
                let mut c = copy_usizes(&kid_lists[p]);
                c.push(n);
                kid_lists.set(p, c);
            },
            None => {
                root_indices.push(n);
            },
        }
        kid_lists.push(Vec::new());
        proof {
            assert forall|j: int|
                0 <= j < n + 1 implies usizes(#[trigger] kid_lists@[j]@) == kids(
                levels,
                j,
                n + 1,
            ) by {
                if j == n {
                    assert(kids(levels, j, n as int) =~= seq![]) by {
                        lemma_kids_below(levels, j, n as int);
                    }
                    assert(usizes(kid_lists@[j]@) =~= seq![]);
                } else if parent == Some(j as usize) {
                    assert(usizes(kid_lists@[j]@) =~= usizes(old_kids[j]@).push(n as int));
                } else {
                    assert(kid_lists@[j] == old_kids[j]);
                    assert(kids(levels, j, n + 1) =~= kids(levels, j, n as int));
                }
            }
            if parent is None {
                assert(usizes(root_indices@) =~= usizes(old_roots).push(n as int));
            } else {
                assert(roots(levels, n + 1) =~= roots(levels, n as int));
            }
        }
        // keep on the stack only the headings that can still be parents
        let ghost old_stack = stack@;
        while stack.len() > 0 && lv[stack[stack.len() - 1]] >= level
            invariant
                stack@.len() <= old_stack.len(),
                stack@ == old_stack.take(stack@.len() as int),
                forall|u: int|
                    stack@.len() <= u < old_stack.len() ==> level <= #[trigger] levels[old_stack[u] as int],
                forall|u: int| 0 <= u < old_stack.len() ==> old_stack[u] < lv@.len(),
                lv@ == levels.take(n as int),
                n < levels.len(),
            decreases stack.len(),
        {
            stack.pop();
        }
        proof {
            assert forall|u: int| 0 <= u < stack@.len() implies levels[stack@[u] as int] < level by {
                let top = stack@.len() - 1;
                assert(levels[stack@[top] as int] < level);
                if u < top {
                    assert(old_stack[u] == stack@[u] && old_stack[top] == stack@[top]);
                }
            }
        }
        let ghost kept = stack@;
        stack.push(n);
        proof {
            assert forall|j: int|
                0 <= j < n + 1 implies (#[trigger] visible(levels, j, n + 1) <==> exists|t2: int|
                0 <= t2 < stack@.len() && stack@[t2] == j) by {
                if j < n {
                    if visible(levels, j, n + 1) {
                        assert(visible(levels, j, n as int));
                        let tj = choose|tj: int| 0 <= tj < old_stack.len() && old_stack[tj] == j;
                        assert(levels[j] < levels[n as int]);
                        if tj >= kept.len() {
                            assert(level <= levels[old_stack[tj] as int]);
                        }
                        assert(stack@[tj] == j);
                    }
                    if exists|t2: int| 0 <= t2 < stack@.len() && stack@[t2] == j {
                        let t2 = choose|t2: int| 0 <= t2 < stack@.len() && stack@[t2] == j;
                        assert(t2 < kept.len());
                        assert(old_stack[t2] == j);
                        assert(visible(levels, j, n as int));
                        assert(levels[j] < level);
                    }
                } else {
                    assert(stack@[stack@.len() - 1] == j);
                }
            }
        }
        lv.push(level);
        titles.push(text_or_empty(title));
        ids.push(text_or_empty(id));
        proof {
            assert(lv@ =~= levels.take(n + 1));
        }
        n += 1;
    }
    // assemble the nodes
    let mut nodes: Vec<TocNode> = Vec::new();
    let mut i: usize = 0;
    while i < n
        invariant
            n == es@.len(),
            *value == TocValue::Entries(*es),
            levels == levels_of(es@),
            levels.len() == n,
            i <= n,
            nodes@.len() == i,
            lv@ == levels.take(n as int),
            titles@.len() == n,
            ids@.len() == n,
            kid_lists@.len() == n,
            forall|k: int|
                0 <= k < i ==> (#[trigger] nodes@[k]).level == levels[k] && nodes@[k].title@
                    == titles@[k]@ && nodes@[k].id@ == ids@[k]@ && nodes@[k].children@
                    == kid_lists@[k]@,
        decreases n - i,
    {
        nodes.push(
            TocNode {
                level: lv[i],
                title: titles[i].clone(),
                id: ids[i].clone(),
                children: copy_usizes(&kid_lists[i]),
            },
        );
        i += 1;
    }
    proof {
        assert(first_fault(es@, n as int) is None);
        assert(levels.take(n as int) =~= levels);
    }
    Ok(TocTree { nodes, root_indices })
}

proof fn lemma_kids_below(levels: Seq<u8>, j: int, n: int)
    requires
        0 <= j,
        n <= j + 1,
    ensures
        kids(levels, j, n) =~= seq![],
    decreases n,
{
    if n > 0 {
        lemma_kids_below(levels, j, n - 1);
        lemma_smaller_from_below(levels, n - 1, n - 2);
    }
}

proof fn lemma_smaller_from_below(levels: Seq<u8>, i: int, j: int)
    ensures
        smaller_from(levels, i, j) matches Some(p) ==> p <= j,
    decreases j + 1,
{
    if j >= 0 && !(levels[j] < levels[i]) {
        lemma_smaller_from_below(levels, i, j - 1);
    }
}


// ---------------------------------------------------------------------
// Rendering
// ---------------------------------------------------------------------

/// What `tera::escape_html` makes of a character: `&`, `<`, `>`, `"` and
/// `'` as entities, anything else unchanged.
pub open spec fn html_escape_char(c: char) -> Seq<char> {
    if c == '&' {
        "&amp;"@
    } else if c == '<' {
        "&lt;"@
    } else if c == '>' {
        "&gt;"@
    } else if c == '"' {
        "&quot;"@
    } else if c == '\'' {
        "&#39;"@
    } else {
        seq![c]
    }
}

pub open spec fn html_escape(s: Seq<char>) -> Seq<char>
    decreases s.len(),
{
    if s.len() == 0 {
        seq![]
    } else {
        html_escape(s.drop_last()) + html_escape_char(s.last())
    }
}

/// Escapes text for HTML as `tera::escape_html` does (see
/// [`html_escape_char`]).
fn escape_html(s: &str) -> (r: String)
    ensures
        r@ == html_escape(s@),
{
    let cs = chars_of(s);
    let mut out = String::new();
    let mut i: usize = 0;
    proof {
        reveal_strlit("");
        assert(s@.take(0) =~= seq![]);
    }
    while i < cs.len()
        invariant
            i <= cs@.len(),
            cs@ == s@,
            out@ == html_escape(s@.take(i as int)),
        decreases cs.len() - i,
    {
        let c = cs[i];
        let ghost before = out@;
        if c == '&' {
            out.append("&amp;");
        } else if c == '<' {
            out.append("&lt;");
        } else if c == '>' {
            out.append("&gt;");
        } else if c == '"' {
            out.append("&quot;");
        } else if c == '\'' {
            out.append("&#39;");
        } else {
            string_push(&mut out, c);
        }
        proof {
            assert(s@.take(i + 1).drop_last() =~= s@.take(i as int));
            assert(s@.take(i + 1).last() == c);
            assert(out@ =~= before + html_escape_char(c));
        }
        i += 1;
    }
    assert(s@.take(cs@.len() as int) =~= s@);
    out
}

/// Escaped text holds no `<`, `>`, `"` or `'`: a heading title cannot
/// open a tag or leave an attribute in the rendered table of contents.
pub proof fn lemma_html_escape_safe(s: Seq<char>)
    ensures
        forall|i: int|
            0 <= i < html_escape(s).len() ==> {
                let c = #[trigger] html_escape(s)[i];
                c != '<' && c != '>' && c != '"' && c != '\''
            },
    decreases s.len(),
{
    reveal_strlit("&amp;");
    reveal_strlit("&lt;");
    reveal_strlit("&gt;");
    reveal_strlit("&quot;");
    reveal_strlit("&#39;");
    if s.len() > 0 {
        lemma_html_escape_safe(s.drop_last());
        let a = html_escape(s.drop_last());
        let b = html_escape_char(s.last());
        assert(html_escape(s) == a + b);
        assert forall|i: int| 0 <= i < html_escape(s).len() implies {
            let c = #[trigger] html_escape(s)[i];
            c != '<' && c != '>' && c != '"' && c != '\''
        } by {
            if i < a.len() {
                assert(html_escape(s)[i] == a[i]);
            } else {
                assert(html_escape(s)[i] == b[i - a.len()]);
            }
        }
    }
}

/// ASCII letters and digits and `-`, `_`, `.`, `~` (RFC 3986 unreserved
/// characters), which percent-encoding keeps.
pub open spec fn unreserved(b: u8) -> bool {
    (48 <= b <= 57) || (65 <= b <= 90) || (97 <= b <= 122) || b == 45 || b == 95 || b == 46 || b
        == 126
}

pub open spec fn hex_digit(d: int) -> char {
    if d < 10 {
        (48 + d) as char
    } else {
        (55 + d) as char
    }
}

/// Percent-encoding of bytes: unreserved ASCII kept, every other byte as
/// `%XX` in upper-case hex.
pub open spec fn percent_encode_spec(b: Seq<u8>) -> Seq<char>
    decreases b.len(),
{
    if b.len() == 0 {
        seq![]
    } else {
        percent_encode_spec(b.drop_last()) + if unreserved(b.last()) {
            seq![b.last() as char]
        } else {
            seq!['%', hex_digit(b.last() as int / 16), hex_digit(b.last() as int % 16)]
        }
    }
}

fn hex_char(d: u8) -> (c: char)
    requires
        d < 16,
    ensures
        c == hex_digit(d as int),
{
    if d < 10 {
        (48 + d) as char
    } else {
        (55 + d) as char
    }
}

/// Percent-encodes the UTF-8 bytes of `s`, keeping RFC 3986 unreserved
/// characters (what `percent_encoding::utf8_percent_encode` does with that
/// set).
pub fn percent_encode_unreserved(s: &str) -> (r: String)
    ensures
        r@ == percent_encode_spec(s.spec_bytes()),
{
    let b = s.as_bytes();
    let mut out = String::new();
    let mut i: usize = 0;
    let ghost bs = b@;
    while i < b.len()
        invariant
            bs == b@,
            i <= bs.len(),
            out@ == percent_encode_spec(bs.take(i as int)),
        decreases b.len() - i,
    {
        let x = b[i];
        assert(bs.take(i + 1).drop_last() =~= bs.take(i as int));
        assert(bs.take(i + 1).last() == x);
        if (48 <= x && x <= 57) || (65 <= x && x <= 90) || (97 <= x && x <= 122) || x == 45 || x
            == 95 || x == 46 || x == 126 {
            string_push(&mut out, x as char);
        } else {
            string_push(&mut out, '%');
            string_push(&mut out, hex_char(x / 16));
            string_push(&mut out, hex_char(x % 16));
        }
        i += 1;
    }
    assert(bs.take(i as int) =~= bs);
    out
}

/// Children point forward within the tree, and roots within it: what
/// [`parse_toc`] builds.
pub open spec fn tree_wf(t: TocTree) -> bool {
    &&& forall|i: int, k: int|
        0 <= i < t.nodes@.len() && 0 <= k < t.nodes@[i].children@.len() ==> i
            < #[trigger] t.nodes@[i].children@[k] < t.nodes@.len()
    &&& forall|k: int|
        0 <= k < t.root_indices@.len() ==> #[trigger] t.root_indices@[k] < t.nodes@.len()
}

/// The list item of node `i`, its children nested in a `lt` list.
pub open spec fn node_html(nodes: Seq<TocNode>, lt: Seq<char>, i: int) -> Seq<char>
    decreases nodes.len() - i, 1int, 0int,
{
    if !(0 <= i < nodes.len()) {
        seq![]
    } else {
        let nd = nodes[i];
        let inner = if nd.children@.len() > 0 {
            "<"@ + lt + ">"@ + kids_html(nodes, lt, i, nd.children@.len() as int) + "</"@ + lt
                + ">"@
        } else {
            seq![]
        };
        "<li><a href=\"#"@ + percent_encode_spec(encode_utf8(nd.id@)) + "\">"@
            + html_escape(nd.title@) + "</a>"@ + inner + "</li>"@
    }
}

/// Items of the first `k` children of node `i`.
pub open spec fn kids_html(nodes: Seq<TocNode>, lt: Seq<char>, i: int, k: int) -> Seq<char>
    decreases nodes.len() - i, 0int, k,
{
    if k <= 0 || !(0 <= i < nodes.len()) || k > nodes[i].children@.len() {
        seq![]
    } else {
        let c = nodes[i].children@[k - 1] as int;
        kids_html(nodes, lt, i, k - 1) + if i < c < nodes.len() {
            node_html(nodes, lt, c)
        } else {
            seq![]
        }
    }
}


/// Items of the first `k` roots.
pub open spec fn roots_html(nodes: Seq<TocNode>, roots: Seq<usize>, lt: Seq<char>, k: int) -> Seq<
    char,
>
    decreases k,
{
    if k <= 0 || k > roots.len() {
        seq![]
    } else {
        roots_html(nodes, roots, lt, k - 1) + node_html(nodes, lt, roots[k - 1] as int)
    }
}

/// The whole tree as nested `lt` lists.
pub open spec fn toc_html(t: TocTree, lt: Seq<char>) -> Seq<char> {
    "<"@ + lt + ">"@ + roots_html(t.nodes@, t.root_indices@, lt, t.root_indices@.len() as int)
        + "</"@ + lt + ">"@
}

fn render_node(tree: &TocTree, idx: usize, list_type: &str) -> (r: String)
    requires
        tree_wf(*tree),
        idx < tree.nodes@.len(),
    ensures
        r@ == node_html(tree.nodes@, list_type@, idx as int),
    decreases tree.nodes@.len() - idx,
{
    let ghost nodes = tree.nodes@;
    let ghost lt = list_type@;
    let node = &tree.nodes[idx];
    let enc = percent_encode_unreserved(node.id.as_str());
    let esc = escape_html(node.title.as_str());
    let mut html = String::from_str("<li><a href=\"#");
    html.append(enc.as_str());
    html.append("\">");
    html.append(esc.as_str());
    html.append("</a>");
    let ghost head = html@;
    if node.children.len() > 0 {
        html.append("<");
        html.append(list_type);
        html.append(">");
        let ghost open = html@;
        let mut k: usize = 0;
        assert(kids_html(nodes, lt, idx as int, 0) == Seq::<char>::empty());
        assert(html@ =~= open + kids_html(nodes, lt, idx as int, 0));
        while k < node.children.len()
            invariant
                tree_wf(*tree),
                nodes == tree.nodes@,
                lt == list_type@,
                idx < nodes.len(),
                *node == nodes[idx as int],
                k <= node.children@.len(),
                html@ == open + kids_html(nodes, lt, idx as int, k as int),
            decreases node.children.len() - k,
        {
            let c = node.children[k];
            assert(idx < c < nodes.len());
            let sub = render_node(tree, c, list_type);
            html.append(sub.as_str());
            assert(html@ =~= open + kids_html(nodes, lt, idx as int, k + 1));
            k += 1;
        }
        html.append("</");
        html.append(list_type);
        html.append(">");
    }
    html.append("</li>");
    html
}

/// Renders the tree as nested lists of kind `list_type` (`ol`, `ul`).
pub fn generate_nested_html(tree: &TocTree, list_type: &str) -> (r: String)
    requires
        tree_wf(*tree),
    ensures
        r@ == toc_html(*tree, list_type@),
{
    let ghost nodes = tree.nodes@;
    let ghost roots = tree.root_indices@;
    let ghost lt = list_type@;
    let mut html = String::from_str("<");
    html.append(list_type);
    html.append(">");
    let ghost open = html@;
    let mut k: usize = 0;
    assert(html@ =~= open + roots_html(nodes, roots, lt, 0));
    while k < tree.root_indices.len()
        invariant
            tree_wf(*tree),
            nodes == tree.nodes@,
            roots == tree.root_indices@,
            lt == list_type@,
            k <= roots.len(),
            html@ == open + roots_html(nodes, roots, lt, k as int),
        decreases tree.root_indices.len() - k,
    {
        let r = tree.root_indices[k];
        let sub = render_node(tree, r, list_type);
        html.append(sub.as_str());
        assert(html@ =~= open + roots_html(nodes, roots, lt, k + 1));
        k += 1;
    }
    html.append("</");
    html.append(list_type);
    html.append(">");
    html
}

/// Every tree that [`parse_toc`] builds can be rendered: its children point
/// forward and its roots lie within it.
pub proof fn lemma_parsed_tree_wf(t: TocTree, es: Seq<TocEntry>)
    requires
        is_tree_of(t, es),
    ensures
        tree_wf(t),
{
    let levels = levels_of(es);
    let n = es.len() as int;
    assert forall|i: int, k: int|
        0 <= i < t.nodes@.len() && 0 <= k < t.nodes@[i].children@.len() implies i
        < #[trigger] t.nodes@[i].children@[k] < t.nodes@.len() by {
        assert(usizes(t.nodes@[i].children@) == kids(levels, i, n));
        lemma_kids_range(levels, i, n);
        assert(usizes(t.nodes@[i].children@)[k] == t.nodes@[i].children@[k] as int);
    }
    assert forall|k: int| 0 <= k < t.root_indices@.len() implies #[trigger] t.root_indices@[k]
        < t.nodes@.len() by {
        lemma_roots_range(levels, n);
        assert(usizes(t.root_indices@)[k] == t.root_indices@[k] as int);
    }
}

proof fn lemma_kids_range(levels: Seq<u8>, j: int, n: int)
    ensures
        forall|k: int| 0 <= k < kids(levels, j, n).len() ==> j < #[trigger] kids(levels, j, n)[k] < n,
    decreases n,
{
    if n > 0 {
        lemma_kids_range(levels, j, n - 1);
        lemma_smaller_from_below(levels, n - 1, n - 2);
        let a = kids(levels, j, n - 1);
        let b = if parent_of(levels, n - 1) == Some(j) {
            seq![n - 1]
        } else {
            seq![]
        };
        assert forall|k: int| 0 <= k < (a + b).len() implies j < #[trigger] (a + b)[k] < n by {
            if k < a.len() {
                assert((a + b)[k] == a[k]);
            } else {
                assert((a + b)[k] == b[k - a.len()]);
            }
        }
    }
}

proof fn lemma_roots_range(levels: Seq<u8>, n: int)
    ensures
        forall|k: int| 0 <= k < roots(levels, n).len() ==> 0 <= #[trigger] roots(levels, n)[k] < n,
    decreases n,
{
    if n > 0 {
        lemma_roots_range(levels, n - 1);
        let a = roots(levels, n - 1);
        let b = if parent_of(levels, n - 1) is None {
            seq![n - 1]
        } else {
            seq![]
        };
        assert forall|k: int| 0 <= k < (a + b).len() implies 0 <= #[trigger] (a + b)[k] < n by {
            if k < a.len() {
                assert((a + b)[k] == a[k]);
            } else {
                assert((a + b)[k] == b[k - a.len()]);
            }
        }
    }
}


/// The `generate_toc` template function: the TOC value rendered as nested
/// lists of kind `list_type` (`ol` by default), or why it was refused.
pub fn generate_toc(value: &TocValue, list_type: Option<&str>) -> (r: Result<String, String>)
    ensures
        match toc_error(*value) {
            Some(e) => r matches Err(x) && x@ == e,
            None => value matches TocValue::Entries(es) && r matches Ok(h) && exists|t: TocTree|
                is_tree_of(t, es@) && h@ == toc_html(
                    t,
                    match list_type {
                        Some(l) => l@,
                        None => "ol"@,
                    },
                ),
        },
{
    let lt = match list_type {
        Some(l) => l,
        None => "ol",
    };
    match parse_toc(value) {
        Err(e) => Err(e),
        Ok(tree) => {
            proof {
                match value {
                    TocValue::Entries(es) => {
                        lemma_parsed_tree_wf(tree, es@);
                    },
                    _ => {},
                }
            }
            let h = generate_nested_html(&tree, lt);
            Ok(h)
        },
    }
}

} // verus!
