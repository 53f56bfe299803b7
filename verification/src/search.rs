//! The search index: title, description and plain body text of each
//! rendered page.
use vstd::prelude::*;

use crate::text::{
    chars_of, find_chars, find_seq_from, lemma_find_seq_from, matches_chars_at, replace_all,
    replace_seq, string_from_chars, string_push,
};

verus! {

/// One page of the search index.
pub struct SearchEntry {
    pub title: String,
    pub permalink: String,
    pub description: String,
    pub body: String,
}

/// Mathematical form of [`SearchEntry`].
pub struct EntryV {
    pub title: Seq<char>,
    pub permalink: Seq<char>,
    pub description: Seq<char>,
    pub body: Seq<char>,
}

impl View for SearchEntry {
    type V = EntryV;

    open spec fn view(&self) -> EntryV {
        EntryV {
            title: self.title@,
            permalink: self.permalink@,
            description: self.description@,
            body: self.body@,
        }
    }
}

// ---------------------------------------------------------------------
// Pieces of a page
// ---------------------------------------------------------------------

/// `&amp;`, `&lt;` and `&gt;` decoded, in that order.
pub open spec fn unescape_spec(s: Seq<char>) -> Seq<char> {
    replace_seq(
        replace_seq(replace_seq(s, "&amp;"@, "&"@), "&lt;"@, "<"@),
        "&gt;"@,
        ">"@,
    )
}

/// Decodes the entities `&amp;`, `&lt;` and `&gt;`.
pub fn unescape_html(s: &str) -> (r: String)
    ensures
        r@ == unescape_spec(s@),
{
    proof {
        reveal_strlit("&amp;");
        reveal_strlit("&lt;");
        reveal_strlit("&gt;");
    }
    let a = replace_all(s, "&amp;", "&");
    let b = replace_all(a.as_str(), "&lt;", "<");
    replace_all(b.as_str(), "&gt;", ">")
}

/// The `<main ...>...</main>` element, or the whole page without one.
pub open spec fn extract_main_spec(h: Seq<char>) -> Seq<char> {
    match find_seq_from(h, "<main"@, 0) {
        Some(start) => {
            let after = h.skip(start);
            match find_seq_from(after, "</main>"@, 0) {
                Some(end) => after.take(end + "</main>"@.len()),
                None => h,
            }
        },
        None => h,
    }
}

/// Text between the first `open` and the next `close` after it,
/// entity-decoded; empty when either is missing.
pub open spec fn between_spec(h: Seq<char>, open: Seq<char>, close: Seq<char>) -> Seq<char> {
    match find_seq_from(h, open, 0) {
        Some(start) => {
            let after = h.skip(start + open.len());
            match find_seq_from(after, close, 0) {
                Some(end) => unescape_spec(after.take(end)),
                None => seq![],
            }
        },
        None => seq![],
    }
}

pub open spec fn extract_title_spec(h: Seq<char>) -> Seq<char> {
    between_spec(h, "<title>"@, "</title>"@)
}

pub open spec fn extract_description_spec(h: Seq<char>) -> Seq<char> {
    between_spec(h, "<meta name=\"description\" content=\""@, "\""@)
}

fn extract_main(h: &Vec<char>) -> (r: Vec<char>)
    ensures
        r@ == extract_main_spec(h@),
{
    let open = chars_of("<main");
    let close = chars_of("</main>");
    match find_chars(h, &open, 0) {
        Some(start) => {
            proof {
                lemma_find_seq_from(h@, open@, 0);
            }
            let mut after: Vec<char> = Vec::new();
            let mut i = start;
            while i < h.len()
                invariant
                    start <= i <= h@.len(),
                    after@ == h@.subrange(start as int, i as int),
                decreases h.len() - i,
            {
                after.push(h[i]);
                i += 1;
                assert(after@ =~= h@.subrange(start as int, i as int));
            }
            assert(after@ =~= h@.skip(start as int));
            match find_chars(&after, &close, 0) {
                Some(end) => {
                    proof {
                        lemma_find_seq_from(after@, close@, 0);
                    }
                    let n = end + close.len();
                    let mut out: Vec<char> = Vec::new();
                    let mut k: usize = 0;
                    while k < n
                        invariant
                            n <= after@.len(),
                            k <= n,
                            out@ == after@.take(k as int),
                        decreases n - k,
                    {
                        out.push(after[k]);
                        k += 1;
                        assert(out@ =~= after@.take(k as int));
                    }
                    out
                },
                None => h.clone(),
            }
        },
        None => h.clone(),
    }
}

fn between(h: &Vec<char>, open: &str, close: &str) -> (r: String)
    ensures
        r@ == between_spec(h@, open@, close@),
{
    let o = chars_of(open);
    let c = chars_of(close);
    match find_chars(h, &o, 0) {
        Some(start) => {
            proof {
                lemma_find_seq_from(h@, o@, 0);
            }
            assert(h@.len() == h.len());
            let from = start + o.len();
            let ghost after = h@.skip(from as int);
            let mut rest: Vec<char> = Vec::new();
            let mut i = from;
            while i < h.len()
                invariant
                    from <= i <= h@.len(),
                    rest@ == h@.subrange(from as int, i as int),
                decreases h.len() - i,
            {
                rest.push(h[i]);
                i += 1;
                assert(rest@ =~= h@.subrange(from as int, i as int));
            }
            assert(rest@ =~= after);
            match find_chars(&rest, &c, 0) {
                Some(end) => {
                    proof {
                        lemma_find_seq_from(rest@, c@, 0);
                    }
                    let inner = string_from_chars(&rest, 0, end);
                    assert(inner@ =~= after.take(end as int));
                    unescape_html(inner.as_str())
                },
                None => String::new(),
            }
        },
        None => String::new(),
    }
}

/// The page's `<title>`, entity-decoded; empty without one.
pub fn extract_title(html: &str) -> (r: String)
    ensures
        r@ == extract_title_spec(html@),
{
    let h = chars_of(html);
    between(&h, "<title>", "</title>")
}

/// The page's meta description, entity-decoded; empty without one.
pub fn extract_description(html: &str) -> (r: String)
    ensures
        r@ == extract_description_spec(html@),
{
    let h = chars_of(html);
    between(&h, "<meta name=\"description\" content=\"", "\"")
}

// ---------------------------------------------------------------------
// Plain text of markup
// ---------------------------------------------------------------------

/// White space in the Unicode sense (`char::is_whitespace`).
pub open spec fn is_ws_char(c: char) -> bool {
    ('\u{9}' <= c <= '\u{d}') || c == ' ' || c == '\u{85}' || c == '\u{a0}' || c == '\u{1680}'
        || ('\u{2000}' <= c <= '\u{200a}') || c == '\u{2028}' || c == '\u{2029}' || c
        == '\u{202f}' || c == '\u{205f}' || c == '\u{3000}'
}

fn is_ws(c: char) -> (r: bool)
    ensures
        r == is_ws_char(c),
{
    ('\u{9}' <= c && c <= '\u{d}') || c == ' ' || c == '\u{85}' || c == '\u{a0}' || c
        == '\u{1680}' || ('\u{2000}' <= c && c <= '\u{200a}') || c == '\u{2028}' || c
        == '\u{2029}' || c == '\u{202f}' || c == '\u{205f}' || c == '\u{3000}'
}

/// Where the markup scanner stands.
#[derive(Clone, Copy, PartialEq, Eq, Structural)]
pub enum Mode {
    /// Ordinary text and tags.
    Text,
    /// Inside a `<script` element, until its next `<`.
    Script,
    /// Inside a `<style` element, until its next `<`.
    Style,
    /// Skipping to the `>` that closes a script or style element.
    Closing,
}

/// `s` begins with `p`.
pub open spec fn starts_with(s: Seq<char>, p: Seq<char>) -> bool {
    p.len() <= s.len() && s.take(p.len() as int) == p
}

/// One step of the scanner at character `i` of `s`: the new tag flag and
/// mode, and the character kept, if any. A `<` opens a tag (and, before
/// `script` or `style`, an element whose content is dropped up to its next
/// `<` and the `>` after it); a `>` closes an open tag; text outside tags
/// is kept.
pub open spec fn strip_step(s: Seq<char>, i: int, in_tag: bool, mode: Mode) -> (
    bool,
    Mode,
    Option<char>,
) {
    let c = s[i];
    match mode {
        Mode::Script => if c == '<' {
            (in_tag, Mode::Closing, None)
        } else {
            (in_tag, Mode::Script, None)
        },
        Mode::Style => if c == '<' {
            (in_tag, Mode::Closing, None)
        } else {
            (in_tag, Mode::Style, None)
        },
        Mode::Closing => if c == '>' {
            (in_tag, Mode::Text, None)
        } else {
            (in_tag, Mode::Closing, None)
        },
        Mode::Text => if c == '<' {
            (
                true,
                if starts_with(s.skip(i + 1), "script"@) {
                    Mode::Script
                } else if starts_with(s.skip(i + 1), "style"@) {
                    Mode::Style
                } else {
                    Mode::Text
                },
                None,
            )
        } else if c == '>' && in_tag {
            (false, Mode::Text, None)
        } else if !in_tag {
            (false, Mode::Text, Some(c))
        } else {
            (true, Mode::Text, None)
        },
    }
}

/// The scanner after the first `n` characters of `s`: tag flag, mode and
/// text kept so far.
pub open spec fn strip_run(s: Seq<char>, n: int) -> (bool, Mode, Seq<char>)
    decreases n,
{
    if n <= 0 {
        (false, Mode::Text, seq![])
    } else {
        let (t, m, out) = strip_run(s, n - 1);
        let (t2, m2, k) = strip_step(s, n - 1, t, m);
        (
            t2,
            m2,
            match k {
                Some(c) => out.push(c),
                None => out,
            },
        )
    }
}

/// Runs of white space in the first `n` characters of `s` replaced by one
/// space; with whether the last character seen was white space.
pub open spec fn collapse_run(s: Seq<char>, n: int) -> (bool, Seq<char>)
    decreases n,
{
    if n <= 0 {
        (false, seq![])
    } else {
        let (prev, out) = collapse_run(s, n - 1);
        if is_ws_char(s[n - 1]) {
            if prev {
                (true, out)
            } else {
                (true, out.push(' '))
            }
        } else {
            (false, out.push(s[n - 1]))
        }
    }
}

/// Index of the first character at or after `i` that is not white space.
pub open spec fn ws_skip(s: Seq<char>, i: int) -> int
    decreases s.len() - i,
{
    if 0 <= i < s.len() && is_ws_char(s[i]) {
        ws_skip(s, i + 1)
    } else {
        i
    }
}

/// End of `s[lo..j]` once trailing white space is dropped.
pub open spec fn ws_back(s: Seq<char>, lo: int, j: int) -> int
    decreases j - lo,
{
    if lo < j && is_ws_char(s[j - 1]) {
        ws_back(s, lo, j - 1)
    } else {
        j
    }
}

/// `s` without leading and trailing white space (`str::trim`).
pub open spec fn trim_ws(s: Seq<char>) -> Seq<char> {
    let a = ws_skip(s, 0);
    s.subrange(a, ws_back(s, a, s.len() as int))
}

proof fn lemma_ws_skip(s: Seq<char>, i: int)
    requires
        0 <= i <= s.len(),
    ensures
        i <= ws_skip(s, i) <= s.len(),
    decreases s.len() - i,
{
    if 0 <= i < s.len() && is_ws_char(s[i]) {
        lemma_ws_skip(s, i + 1);
    }
}

proof fn lemma_ws_back(s: Seq<char>, lo: int, j: int)
    requires
        0 <= lo <= j <= s.len(),
    ensures
        lo <= ws_back(s, lo, j) <= j,
    decreases j - lo,
{
    if lo < j && is_ws_char(s[j - 1]) {
        lemma_ws_back(s, lo, j - 1);
    }
}

/// Plain text of markup: tags and script/style content dropped, white
/// space collapsed to single spaces, and the ends trimmed.
pub open spec fn strip_html_spec(h: Seq<char>) -> Seq<char> {
    let kept = strip_run(h, h.len() as int).2;
    trim_ws(collapse_run(kept, kept.len() as int).1)
}

/// The plain text of an HTML fragment (see [`strip_html_spec`]).
pub fn strip_html(html: &str) -> (r: String)
    ensures
        r@ == strip_html_spec(html@),
{
    let cs = chars_of(html);
    let script = chars_of("script");
    let style = chars_of("style");
    let mut in_tag = false;
    let mut mode = Mode::Text;
    let mut kept: Vec<char> = Vec::new();
    let mut i: usize = 0;
    while i < cs.len()
        invariant
            cs@ == html@,
            script@ == "script"@,
            style@ == "style"@,
            i <= cs@.len(),
            strip_run(html@, i as int) == (in_tag, mode, kept@),
        decreases cs.len() - i,
    {
        let c = cs[i];
        match mode {
            Mode::Script | Mode::Style => {
                if c == '<' {
                    mode = Mode::Closing;
                }
            },
            Mode::Closing => {
                if c == '>' {
                    mode = Mode::Text;
                }
            },
            Mode::Text => {
                if c == '<' {
                    in_tag = true;
                    let at_script = matches_chars_at(&cs, &script, i + 1);
                    let at_style = matches_chars_at(&cs, &style, i + 1);
                    proof {
                        let rest = html@.skip(i + 1);
                        if rest.len() >= 6 {
                            assert(rest.take(6) =~= html@.subrange(i + 1, i + 7));
                        }
                        if rest.len() >= 5 {
                            assert(rest.take(5) =~= html@.subrange(i + 1, i + 6));
                        }
                        reveal_strlit("script");
                        reveal_strlit("style");
                    }
                    if at_script {
                        mode = Mode::Script;
                    } else if at_style {
                        mode = Mode::Style;
                    }
                } else if c == '>' && in_tag {
                    in_tag = false;
                } else if !in_tag {
                    kept.push(c);
                }
            },
        }
        i += 1;
    }
    assert(html@.len() == i);
    let ghost k = kept@;
    let mut collapsed: Vec<char> = Vec::new();
    let mut prev_space = false;
    let mut j: usize = 0;
    while j < kept.len()
        invariant
            kept@ == k,
            j <= k.len(),
            collapse_run(k, j as int) == (prev_space, collapsed@),
        decreases kept.len() - j,
    {
        let c = kept[j];
        if is_ws(c) {
            if !prev_space {
                collapsed.push(' ');
                prev_space = true;
            }
        } else {
            collapsed.push(c);
            prev_space = false;
        }
        j += 1;
    }
    let ghost t = collapsed@;
    let n = collapsed.len();
    let mut a: usize = 0;
    proof {
        lemma_ws_skip(t, 0);
    }
    while a < n && is_ws(collapsed[a])
        invariant
            collapsed@ == t,
            n == t.len(),
            a <= n,
            ws_skip(t, 0) == ws_skip(t, a as int),
        decreases n - a,
    {
        a += 1;
    }
    let mut b: usize = n;
    while b > a && is_ws(collapsed[b - 1])
        invariant
            collapsed@ == t,
            n == t.len(),
            a <= b <= n,
            a == ws_skip(t, 0),
            ws_back(t, a as int, n as int) == ws_back(t, a as int, b as int),
        decreases b,
    {
        b -= 1;
    }
    string_from_chars(&collapsed, a, b)
}

// ---------------------------------------------------------------------
// Index entries
// ---------------------------------------------------------------------

pub open spec fn entry_spec(permalink: Seq<char>, html: Seq<char>) -> EntryV {
    EntryV {
        title: extract_title_spec(html),
        permalink,
        description: extract_description_spec(html),
        body: strip_html_spec(extract_main_spec(html)),
    }
}

/// The index entry of one rendered page.
pub fn extract_entry(permalink: &str, html: &str) -> (r: SearchEntry)
    ensures
        r@ == entry_spec(permalink@, html@),
{
    let title = extract_title(html);
    let description = extract_description(html);
    let h = chars_of(html);
    let main = extract_main(&h);
    let main_text = string_from_chars(&main, 0, main.len());
    assert(main_text@ =~= main@);
    let body = strip_html(main_text.as_str());
    SearchEntry { title, permalink: String::from_str(permalink), description, body }
}

pub open spec fn pages_view(pages: Seq<(String, String)>) -> Seq<(Seq<char>, Seq<char>)> {
    Seq::new(pages.len(), |i: int| (pages[i].0@, pages[i].1@))
}

/// One index entry per rendered page, given as (permalink, html) pairs,
/// in the same order. The pages stand for a map from permalink to page:
/// with distinct permalinks there, the entries' permalinks are distinct.
pub fn extract_entries(pages: &Vec<(String, String)>) -> (r: Vec<SearchEntry>)
    ensures
        r@.len() == pages@.len(),
        forall|i: int|
            0 <= i < r@.len() ==> (#[trigger] r@[i])@ == entry_spec(pages@[i].0@, pages@[i].1@),
        crate::hierarchy::keys_distinct(pages_view(pages@)) ==> forall|i: int, j: int|
            0 <= i < j < r@.len() ==> (#[trigger] r@[i])@.permalink != (#[trigger] r@[j])@.permalink,
{
    let mut entries: Vec<SearchEntry> = Vec::new();
    let mut i: usize = 0;
    while i < pages.len()
        invariant
            i <= pages@.len(),
            entries@.len() == i,
            forall|j: int|
                0 <= j < i ==> (#[trigger] entries@[j])@ == entry_spec(
                    pages@[j].0@,
                    pages@[j].1@,
                ),
        decreases pages.len() - i,
    {
        let e = extract_entry(pages[i].0.as_str(), pages[i].1.as_str());
        entries.push(e);
        i += 1;
    }
    proof {
        if crate::hierarchy::keys_distinct(pages_view(pages@)) {
            assert forall|i: int, j: int| 0 <= i < j < entries@.len() implies (
            #[trigger] entries@[i])@.permalink != (#[trigger] entries@[j])@.permalink by {
                assert(pages_view(pages@)[i].0 != pages_view(pages@)[j].0);
            }
        }
    }
    entries
}


// ---------------------------------------------------------------------
// Laws
// ---------------------------------------------------------------------

/// Text that holds no `<`, only spaces as white space, never two of them
/// in a row, and none at either end.
pub open spec fn clean_text(r: Seq<char>) -> bool {
    &&& forall|i: int| 0 <= i < r.len() ==> r[i] != '<'
    &&& forall|i: int| 0 <= i < r.len() && is_ws_char(r[i]) ==> r[i] == ' '
    &&& forall|i: int| 0 <= i < r.len() - 1 ==> !(is_ws_char(#[trigger] r[i]) && is_ws_char(r[i + 1]))
    &&& r.len() > 0 ==> !is_ws_char(r[0]) && !is_ws_char(r[r.len() - 1])
}

proof fn lemma_strip_run_no_open(s: Seq<char>, n: int)
    requires
        0 <= n <= s.len(),
    ensures
        forall|i: int| 0 <= i < strip_run(s, n).2.len() ==> strip_run(s, n).2[i] != '<',
    decreases n,
{
    if n > 0 {
        lemma_strip_run_no_open(s, n - 1);
        let (t, m, out) = strip_run(s, n - 1);
        let (t2, m2, k) = strip_step(s, n - 1, t, m);
        match k {
            Some(c) => {
                assert(c != '<');
                assert forall|i: int| 0 <= i < out.push(c).len() implies out.push(c)[i] != '<' by {
                    if i < out.len() {
                        assert(out.push(c)[i] == out[i]);
                    }
                }
            },
            None => {},
        }
    }
}

proof fn lemma_collapse_run(k: Seq<char>, n: int)
    requires
        0 <= n <= k.len(),
        forall|i: int| 0 <= i < k.len() ==> k[i] != '<',
    ensures
        ({
            let (prev, out) = collapse_run(k, n);
            &&& prev <==> (out.len() > 0 && is_ws_char(out[out.len() - 1]))
            &&& forall|i: int| 0 <= i < out.len() ==> out[i] != '<'
            &&& forall|i: int| 0 <= i < out.len() && is_ws_char(out[i]) ==> out[i] == ' '
            &&& forall|i: int|
                0 <= i < out.len() - 1 ==> !(is_ws_char(#[trigger] out[i]) && is_ws_char(out[i + 1]))
        }),
    decreases n,
{
    if n > 0 {
        lemma_collapse_run(k, n - 1);
    }
}

/// The plain text of markup never holds a `<`, its only white space is
/// single spaces between words, and it is trimmed.
pub proof fn lemma_strip_html_clean(h: Seq<char>)
    ensures
        clean_text(strip_html_spec(h)),
{
    let kept = strip_run(h, h.len() as int).2;
    lemma_strip_run_no_open(h, h.len() as int);
    lemma_collapse_run(kept, kept.len() as int);
    let t = collapse_run(kept, kept.len() as int).1;
    let a = ws_skip(t, 0);
    lemma_ws_skip(t, 0);
    lemma_ws_back(t, a, t.len() as int);
    let b = ws_back(t, a, t.len() as int);
    let r = t.subrange(a, b);
    assert(strip_html_spec(h) == r);
    if r.len() > 0 {
        lemma_ws_skip_stops(t, 0);
        lemma_ws_back_stops(t, a, t.len() as int);
        assert(r[0] == t[a]);
        assert(r[r.len() - 1] == t[b - 1]);
    }
    assert forall|i: int| 0 <= i < r.len() - 1 implies !(is_ws_char(#[trigger] r[i]) && is_ws_char(
        r[i + 1],
    )) by {
        assert(r[i] == t[a + i] && r[i + 1] == t[a + i + 1]);
    }
}

proof fn lemma_ws_skip_stops(s: Seq<char>, i: int)
    requires
        0 <= i <= s.len(),
    ensures
        ws_skip(s, i) < s.len() ==> !is_ws_char(s[ws_skip(s, i)]),
    decreases s.len() - i,
{
    if 0 <= i < s.len() && is_ws_char(s[i]) {
        lemma_ws_skip_stops(s, i + 1);
    }
}

proof fn lemma_ws_back_stops(s: Seq<char>, lo: int, j: int)
    requires
        0 <= lo <= j <= s.len(),
    ensures
        lo < ws_back(s, lo, j) ==> !is_ws_char(s[ws_back(s, lo, j) - 1]),
    decreases j - lo,
{
    if lo < j && is_ws_char(s[j - 1]) {
        lemma_ws_back_stops(s, lo, j - 1);
    }
}

} // verus!
