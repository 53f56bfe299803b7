//! Locates the byte span of every field value inside a document's
//! `@document.meta` block, keyed by its dot/bracket path (`author.name`,
//! `categories[0]`, `authors[0].name`), so diagnostics can point at the
//! offending value.
//!
//! The grammar mirrors the Norg metadata syntax: objects are `{ key: value }`
//! and arrays `[ value ]`, both newline-separated (commas are ordinary text);
//! keys and values cannot contain `{}[]` or newlines; indentation is
//! irrelevant. Fields with empty values are not recorded.
use vstd::prelude::*;
use vstd::string::StringSliceAdditionalSpecFns;
use vstd::utf8::encode_utf8;

use crate::schema::{opt_str_view, ErrorV, ValidationError};
use crate::text::{find_bytes, find_bytes_from, lemma_find_from_bounds};

verus! {

// ---------------------------------------------------------------------
// Spans and the span table
// ---------------------------------------------------------------------

/// A byte range of a document.
#[derive(Clone, Copy, Debug, PartialEq, Eq, Structural)]
pub struct Span {
    pub offset: usize,
    pub len: usize,
}

impl Span {
    pub fn new(offset: usize, len: usize) -> (r: Span)
        ensures
            r.offset == offset,
            r.len == len,
    {
        Span { offset, len }
    }

    /// Byte offset of the first byte of the range.
    pub fn offset(&self) -> (r: usize)
        ensures
            r == self.offset,
    {
        self.offset
    }

    /// Number of bytes in the range.
    pub fn len(&self) -> (r: usize)
        ensures
            r == self.len,
    {
        self.len
    }
}

/// The table built by folding a sequence of insertions, later ones winning.
pub open spec fn entries_map(s: Seq<(Vec<u8>, Span)>) -> Map<Seq<u8>, Span>
    decreases s.len(),
{
    if s.len() == 0 {
        Map::empty()
    } else {
        entries_map(s.drop_last()).insert(s.last().0@, s.last().1)
    }
}

/// Path -> span table. Inserting an existing path replaces its span.
pub struct SpanMap {
    entries: Vec<(Vec<u8>, Span)>,
}

impl View for SpanMap {
    type V = Map<Seq<u8>, Span>;

    closed spec fn view(&self) -> Map<Seq<u8>, Span> {
        entries_map(self.entries@)
    }
}

impl SpanMap {
    pub fn new() -> (r: SpanMap)
        ensures
            r@ == Map::<Seq<u8>, Span>::empty(),
    {
        SpanMap { entries: Vec::new() }
    }

    pub fn insert(&mut self, key: Vec<u8>, span: Span)
        ensures
            final(self)@ == old(self)@.insert(key@, span),
    {
        let ghost pre = self.entries@;
        self.entries.push((key, span));
        assert(self.entries@.drop_last() =~= pre);
    }

    /// The span recorded for `key`, if any.
    pub fn get(&self, key: &[u8]) -> (r: Option<Span>)
        ensures
            r == (if self@.contains_key(key@) {
                Some(self@[key@])
            } else {
                None
            }),
    {
        let ghost s = self.entries@;
        let mut i = self.entries.len();
        assert(s.take(i as int) =~= s);
        while i > 0
            invariant
                i <= s.len(),
                s == self.entries@,
                entries_map(s.take(i as int)).contains_key(key@) == entries_map(s).contains_key(
                    key@,
                ),
                entries_map(s).contains_key(key@) ==> entries_map(s.take(i as int))[key@]
                    == entries_map(s)[key@],
            decreases i,
        {
            let ghost t = s.take(i as int);
            assert(t.drop_last() =~= s.take(i - 1));
            assert(t.last() == s[i - 1]);
            if bytes_eq(self.entries[i - 1].0.as_slice(), key) {
                return Some(self.entries[i - 1].1);
            }
            i -= 1;
        }
        None
    }
}

/// Byte-wise equality of two slices.
pub fn bytes_eq(a: &[u8], b: &[u8]) -> (r: bool)
    ensures
        r == (a@ == b@),
{
    if a.len() != b.len() {
        return false;
    }
    let mut i: usize = 0;
    while i < a.len()
        invariant
            a@.len() == b@.len(),
            i <= a@.len(),
            forall|j: int| 0 <= j < i ==> a@[j] == b@[j],
        decreases a.len() - i,
    {
        if a[i] != b[i] {
            return false;
        }
        i += 1;
    }
    assert(a@ =~= b@);
    true
}

// ---------------------------------------------------------------------
// The scanned grammar
// ---------------------------------------------------------------------

pub open spec fn is_ws_byte(b: u8) -> bool {
    b == 32 || b == 9 || b == 10 || b == 13
}

pub open spec fn is_hspace_byte(b: u8) -> bool {
    b == 32 || b == 9
}

/// Bytes that end a key: `:` `{` `}` `[` `]` and newline.
pub open spec fn is_key_stop(b: u8) -> bool {
    b == 58 || b == 123 || b == 125 || b == 91 || b == 93 || b == 10
}

/// Bytes that end a plain value: `{` `}` `[` `]` and newline.
pub open spec fn is_value_stop(b: u8) -> bool {
    b == 123 || b == 125 || b == 91 || b == 93 || b == 10
}

/// End of the run of space, tab, newline and carriage return starting at `i`.
pub open spec fn ws_end(t: Seq<u8>, i: int) -> int
    decreases t.len() - i,
{
    if 0 <= i < t.len() && is_ws_byte(t[i]) {
        ws_end(t, i + 1)
    } else {
        i
    }
}

/// End of the run of spaces and tabs starting at `i`.
pub open spec fn hs_end(t: Seq<u8>, i: int) -> int
    decreases t.len() - i,
{
    if 0 <= i < t.len() && is_hspace_byte(t[i]) {
        hs_end(t, i + 1)
    } else {
        i
    }
}

/// First key-ending byte at or after `i` (or the end of the text).
pub open spec fn key_end(t: Seq<u8>, i: int) -> int
    decreases t.len() - i,
{
    if 0 <= i < t.len() && !is_key_stop(t[i]) {
        key_end(t, i + 1)
    } else {
        i
    }
}

/// End of a plain value starting at `i`: the first value-ending byte, a
/// backslash escaping the byte after it. Past the end of the text when the
/// text ends in an escaping backslash.
pub open spec fn scalar_end(t: Seq<u8>, i: int) -> int
    decreases t.len() + 1 - i,
{
    if 0 <= i < t.len() && !is_value_stop(t[i]) {
        if t[i] == 92 {
            scalar_end(t, i + 2)
        } else {
            scalar_end(t, i + 1)
        }
    } else {
        i
    }
}

/// No value starts at `i`: end of text, newline, `}` or `]`.
pub open spec fn is_nil_at(t: Seq<u8>, i: int) -> bool {
    !(0 <= i < t.len()) || t[i] == 10 || t[i] == 125 || t[i] == 93
}

pub proof fn lemma_ws_end(t: Seq<u8>, i: int)
    requires
        0 <= i <= t.len(),
    ensures
        i <= ws_end(t, i) <= t.len(),
        ws_end(t, i) < t.len() ==> !is_ws_byte(t[ws_end(t, i)]),
    decreases t.len() - i,
{
    if 0 <= i < t.len() && is_ws_byte(t[i]) {
        lemma_ws_end(t, i + 1);
    }
}

pub proof fn lemma_hs_end(t: Seq<u8>, i: int)
    requires
        0 <= i <= t.len(),
    ensures
        i <= hs_end(t, i) <= t.len(),
    decreases t.len() - i,
{
    if 0 <= i < t.len() && is_hspace_byte(t[i]) {
        lemma_hs_end(t, i + 1);
    }
}

pub proof fn lemma_key_end(t: Seq<u8>, i: int)
    requires
        0 <= i <= t.len(),
    ensures
        i <= key_end(t, i) <= t.len(),
    decreases t.len() - i,
{
    if 0 <= i < t.len() && !is_key_stop(t[i]) {
        lemma_key_end(t, i + 1);
    }
}

pub proof fn lemma_scalar_end(t: Seq<u8>, i: int)
    requires
        0 <= i <= t.len(),
    ensures
        i <= scalar_end(t, i) <= t.len() + 1,
        scalar_end(t, i) < t.len() ==> is_value_stop(t[scalar_end(t, i)]),
        0 <= i < t.len() && !is_value_stop(t[i]) ==> i < scalar_end(t, i),
    decreases t.len() + 1 - i,
{
    if 0 <= i < t.len() && !is_value_stop(t[i]) {
        if t[i] == 92 {
            if i + 2 <= t.len() {
                lemma_scalar_end(t, i + 2);
            } else {
                assert(scalar_end(t, i + 2) == i + 2);
            }
        } else {
            lemma_scalar_end(t, i + 1);
        }
    }
}

// ---------------------------------------------------------------------
// Unicode whitespace trimming (on UTF-8 bytes)
// ---------------------------------------------------------------------

pub open spec fn is_ascii_ws(b: u8) -> bool {
    (9 <= b <= 13) || b == 32
}

/// The three-byte UTF-8 encodings of the `White_Space` characters
/// U+1680, U+2000..=U+200A, U+2028, U+2029, U+202F, U+205F and U+3000.
pub open spec fn is_ws3(a: u8, b: u8, c: u8) -> bool {
    ||| (a == 0xE1 && b == 0x9A && c == 0x80)
    ||| (a == 0xE2 && b == 0x80 && ((0x80 <= c <= 0x8A) || c == 0xA8 || c == 0xA9 || c == 0xAF))
    ||| (a == 0xE2 && b == 0x81 && c == 0x9F)
    ||| (a == 0xE3 && b == 0x80 && c == 0x80)
}

/// Byte length of the whitespace character that ends `s` (0 if none).
/// The two-byte cases are U+0085 and U+00A0.
pub open spec fn ws_suffix_len(s: Seq<u8>) -> int {
    let n = s.len() as int;
    if n >= 1 && is_ascii_ws(s[n - 1]) {
        1
    } else if n >= 2 && s[n - 2] == 0xC2 && (s[n - 1] == 0x85 || s[n - 1] == 0xA0) {
        2
    } else if n >= 3 && is_ws3(s[n - 3], s[n - 2], s[n - 1]) {
        3
    } else {
        0
    }
}

/// Byte length of the whitespace character that starts `s` (0 if none).
pub open spec fn ws_prefix_len(s: Seq<u8>) -> int {
    if s.len() >= 1 && is_ascii_ws(s[0]) {
        1
    } else if s.len() >= 2 && s[0] == 0xC2 && (s[1] == 0x85 || s[1] == 0xA0) {
        2
    } else if s.len() >= 3 && is_ws3(s[0], s[1], s[2]) {
        3
    } else {
        0
    }
}

/// Length of `s` once trailing whitespace characters are removed
/// (`str::trim_end`).
pub open spec fn trim_end_len(s: Seq<u8>) -> int
    decreases s.len(),
{
    if ws_suffix_len(s) > 0 {
        trim_end_len(s.subrange(0, s.len() - ws_suffix_len(s)))
    } else {
        s.len() as int
    }
}

/// Number of leading bytes that are whitespace characters.
pub open spec fn trim_start_len(s: Seq<u8>) -> int
    decreases s.len(),
{
    if ws_prefix_len(s) > 0 {
        ws_prefix_len(s) + trim_start_len(s.subrange(ws_prefix_len(s), s.len() as int))
    } else {
        0
    }
}

/// `s` without leading and trailing whitespace characters (`str::trim`).
pub open spec fn trim_bytes(s: Seq<u8>) -> Seq<u8> {
    let u = s.subrange(0, trim_end_len(s));
    u.subrange(trim_start_len(u), u.len() as int)
}

pub proof fn lemma_trim_end_len(s: Seq<u8>)
    ensures
        0 <= trim_end_len(s) <= s.len(),
    decreases s.len(),
{
    if ws_suffix_len(s) > 0 {
        lemma_trim_end_len(s.subrange(0, s.len() - ws_suffix_len(s)));
    }
}

pub proof fn lemma_trim_start_len(s: Seq<u8>)
    ensures
        0 <= trim_start_len(s) <= s.len(),
    decreases s.len(),
{
    if ws_prefix_len(s) > 0 {
        lemma_trim_start_len(s.subrange(ws_prefix_len(s), s.len() as int));
    }
}

// ---------------------------------------------------------------------
// Paths
// ---------------------------------------------------------------------

/// Decimal digits of `n`, most significant first, without leading zeros.
pub open spec fn decimal(n: nat) -> Seq<u8>
    decreases n,
{
    if n < 10 {
        seq![(48 + n) as u8]
    } else {
        decimal(n / 10).push((48 + n % 10) as u8)
    }
}

/// `key` under an object at `path`: `path.key` (just `key` at top level).
pub open spec fn child_path(path: Seq<u8>, key: Seq<u8>) -> Seq<u8> {
    if path.len() == 0 {
        key
    } else {
        path + seq![46u8] + key
    }
}

/// Item `idx` of an array at `path`: `path[idx]`.
pub open spec fn item_path(path: Seq<u8>, idx: nat) -> Seq<u8> {
    path + seq![91u8] + decimal(idx) + seq![93u8]
}

pub open spec fn mk_span(offset: int, len: int) -> Span {
    Span { offset: offset as usize, len: len as usize }
}

// ---------------------------------------------------------------------
// The scan, as a recursive description over the block text `t`.
// Results are `None` exactly where the scan would not return normally:
// an escaping backslash as the last byte of the block, an array item that
// consumes nothing (a stray `}` inside an array), or a block with no byte
// after the directive.
// ---------------------------------------------------------------------

/// Value starting at `pos`; result: updated table and end index.
pub open spec fn value_spec(
    t: Seq<u8>,
    pos: int,
    base: int,
    path: Seq<u8>,
    m: Map<Seq<u8>, Span>,
) -> Option<(Map<Seq<u8>, Span>, int)>
    decreases t.len() - pos, 2int,
{
    if !(0 <= pos < t.len()) {
        None
    } else if t[pos] == 123 {
        object_spec(t, pos, base, path, m)
    } else if t[pos] == 91 {
        array_spec(t, pos, base, path, m)
    } else {
        let j = scalar_end(t, pos);
        if j > t.len() {
            None
        } else {
            Some((m.insert(path, mk_span(base + pos, trim_end_len(t.subrange(pos, j)))), j))
        }
    }
}

/// Object whose opening byte is at `pos`.
pub open spec fn object_spec(
    t: Seq<u8>,
    pos: int,
    base: int,
    path: Seq<u8>,
    m: Map<Seq<u8>, Span>,
) -> Option<(Map<Seq<u8>, Span>, int)>
    decreases t.len() - pos, 1int,
{
    if !(0 <= pos < t.len()) {
        None
    } else {
        object_loop(t, pos, pos + 1, base, path, m)
    }
}

/// Closes an object begun at `pos` whose members ended at `e0`.
pub open spec fn object_finish(
    t: Seq<u8>,
    pos: int,
    e0: int,
    base: int,
    path: Seq<u8>,
    m: Map<Seq<u8>, Span>,
) -> Option<(Map<Seq<u8>, Span>, int)> {
    let end = if e0 < t.len() && t[e0] == 125 {
        e0 + 1
    } else {
        e0
    };
    Some((m.insert(path, mk_span(base + pos, end - pos)), end))
}

/// Object members from index `i` on.
pub open spec fn object_loop(
    t: Seq<u8>,
    pos: int,
    i: int,
    base: int,
    path: Seq<u8>,
    m: Map<Seq<u8>, Span>,
) -> Option<(Map<Seq<u8>, Span>, int)>
    decreases t.len() - i, 0int,
{
    if !(0 <= pos < i <= t.len()) {
        None
    } else {
        let i1 = ws_end(t, i);
        proof {
            lemma_ws_end(t, i);
        }
        if i1 >= t.len() || t[i1] == 125 {
            object_finish(t, pos, i1, base, path, m)
        } else {
            let ke = key_end(t, i1);
            proof {
                lemma_key_end(t, i1);
            }
            if ke >= t.len() || t[ke] != 58 {
                object_finish(t, pos, ke, base, path, m)
            } else {
                let key = trim_bytes(t.subrange(i1, ke));
                let i3 = hs_end(t, ke + 1);
                proof {
                    lemma_hs_end(t, ke + 1);
                }
                if is_nil_at(t, i3) {
                    object_loop(t, pos, i3, base, path, m)
                } else {
                    match value_spec(t, i3, base, child_path(path, key), m) {
                        None => None,
                        Some((m2, e)) => if i3 < e <= t.len() {
                            object_loop(t, pos, e, base, path, m2)
                        } else {
                            None
                        },
                    }
                }
            }
        }
    }
}

/// Array whose opening byte is at `pos`.
pub open spec fn array_spec(
    t: Seq<u8>,
    pos: int,
    base: int,
    path: Seq<u8>,
    m: Map<Seq<u8>, Span>,
) -> Option<(Map<Seq<u8>, Span>, int)>
    decreases t.len() - pos, 1int,
{
    if !(0 <= pos < t.len()) {
        None
    } else {
        array_loop(t, pos, pos + 1, 0, base, path, m)
    }
}

/// Closes an array begun at `pos` whose items ended at `e0`.
pub open spec fn array_finish(
    t: Seq<u8>,
    pos: int,
    e0: int,
    base: int,
    path: Seq<u8>,
    m: Map<Seq<u8>, Span>,
) -> Option<(Map<Seq<u8>, Span>, int)> {
    let end = if e0 < t.len() && t[e0] == 93 {
        e0 + 1
    } else {
        e0
    };
    Some((m.insert(path, mk_span(base + pos, end - pos)), end))
}

/// Array items from index `i` on, the next one being item `idx`.
pub open spec fn array_loop(
    t: Seq<u8>,
    pos: int,
    i: int,
    idx: nat,
    base: int,
    path: Seq<u8>,
    m: Map<Seq<u8>, Span>,
) -> Option<(Map<Seq<u8>, Span>, int)>
    decreases t.len() - i, 3int,
{
    if !(0 <= pos < i <= t.len()) {
        None
    } else {
        let i1 = ws_end(t, i);
        proof {
            lemma_ws_end(t, i);
        }
        if i1 >= t.len() || t[i1] == 93 {
            array_finish(t, pos, i1, base, path, m)
        } else {
            match value_spec(t, i1, base, item_path(path, idx), m) {
                None => None,
                Some((m2, e)) => if i1 < e <= t.len() {
                    array_loop(t, pos, e, idx + 1, base, path, m2)
                } else {
                    None
                },
            }
        }
    }
}

/// `@document.meta`
pub open spec fn meta_marker() -> Seq<u8> {
    seq![64u8, 100, 111, 99, 117, 109, 101, 110, 116, 46, 109, 101, 116, 97]
}

/// `@end`
pub open spec fn end_marker() -> Seq<u8> {
    seq![64u8, 101, 110, 100]
}

/// `@meta`: the key under which the directive itself is recorded.
pub open spec fn meta_key() -> Seq<u8> {
    seq![64u8, 109, 101, 116, 97]
}

/// The span table of a whole document `c` (its UTF-8 bytes); `None` where
/// the scan would not return normally.
pub open spec fn scan_spec(c: Seq<u8>) -> Option<Map<Seq<u8>, Span>> {
    match find_bytes(c, meta_marker()) {
        None => Some(Map::empty()),
        Some(ms) => {
            let m0 = Map::<Seq<u8>, Span>::empty().insert(meta_key(), mk_span(ms, 14));
            let base = ms + 14;
            let block = c.subrange(base, c.len() as int);
            match find_bytes(block, end_marker()) {
                None => Some(m0),
                Some(be) => match object_spec(block.subrange(0, be), 0, base, seq![], m0) {
                    Some((m, _end)) => Some(m),
                    None => None,
                },
            }
        }
    }
}


// ---------------------------------------------------------------------
// Every recorded span lies within the document
// ---------------------------------------------------------------------

/// Every span of `m` ends at or before `hi`.
pub open spec fn spans_within(m: Map<Seq<u8>, Span>, hi: int) -> bool {
    forall|k: Seq<u8>| #[trigger] m.contains_key(k) ==> m[k].offset + m[k].len <= hi
}

proof fn lemma_value_within(t: Seq<u8>, pos: int, base: int, path: Seq<u8>, m: Map<Seq<u8>, Span>)
    requires
        0 <= base,
        base + t.len() <= usize::MAX,
        spans_within(m, base + t.len()),
    ensures
        value_spec(t, pos, base, path, m) matches Some((m2, e)) ==> spans_within(
            m2,
            base + t.len(),
        ) && pos <= e <= t.len(),
    decreases t.len() - pos, 2int,
{
    if 0 <= pos < t.len() {
        if t[pos] == 123 {
            lemma_object_loop_within(t, pos, pos + 1, base, path, m);
        } else if t[pos] == 91 {
            lemma_array_loop_within(t, pos, pos + 1, 0, base, path, m);
        } else {
            lemma_scalar_end(t, pos);
            let j = scalar_end(t, pos);
            if j <= t.len() {
                lemma_trim_end_len(t.subrange(pos, j));
            }
        }
    }
}

proof fn lemma_object_loop_within(
    t: Seq<u8>,
    pos: int,
    i: int,
    base: int,
    path: Seq<u8>,
    m: Map<Seq<u8>, Span>,
)
    requires
        0 <= base,
        base + t.len() <= usize::MAX,
        spans_within(m, base + t.len()),
    ensures
        object_loop(t, pos, i, base, path, m) matches Some((m2, e)) ==> spans_within(
            m2,
            base + t.len(),
        ) && pos <= e <= t.len(),
    decreases t.len() - i, 0int,
{
    if 0 <= pos < i <= t.len() {
        lemma_ws_end(t, i);
        let i1 = ws_end(t, i);
        if !(i1 >= t.len() || t[i1] == 125) {
            lemma_key_end(t, i1);
            let ke = key_end(t, i1);
            if !(ke >= t.len() || t[ke] != 58) {
                lemma_hs_end(t, ke + 1);
                let i3 = hs_end(t, ke + 1);
                let key = trim_bytes(t.subrange(i1, ke));
                if is_nil_at(t, i3) {
                    lemma_object_loop_within(t, pos, i3, base, path, m);
                } else {
                    lemma_value_within(t, i3, base, child_path(path, key), m);
                    match value_spec(t, i3, base, child_path(path, key), m) {
                        None => {},
                        Some((m2, e)) => if i3 < e <= t.len() {
                            lemma_object_loop_within(t, pos, e, base, path, m2);
                        },
                    }
                }
            }
        }
    }
}

proof fn lemma_array_loop_within(
    t: Seq<u8>,
    pos: int,
    i: int,
    idx: nat,
    base: int,
    path: Seq<u8>,
    m: Map<Seq<u8>, Span>,
)
    requires
        0 <= base,
        base + t.len() <= usize::MAX,
        spans_within(m, base + t.len()),
    ensures
        array_loop(t, pos, i, idx, base, path, m) matches Some((m2, e)) ==> spans_within(
            m2,
            base + t.len(),
        ) && pos <= e <= t.len(),
    decreases t.len() - i, 3int,
{
    if 0 <= pos < i <= t.len() {
        lemma_ws_end(t, i);
        let i1 = ws_end(t, i);
        if !(i1 >= t.len() || t[i1] == 93) {
            lemma_value_within(t, i1, base, item_path(path, idx), m);
            match value_spec(t, i1, base, item_path(path, idx), m) {
                None => {},
                Some((m2, e)) => if i1 < e <= t.len() {
                    lemma_array_loop_within(t, pos, e, idx + 1, base, path, m2);
                },
            }
        }
    }
}

/// Every span recorded for a document lies within it: a diagnostic never
/// points past the end of the source.
pub proof fn lemma_scan_spans_within(c: Seq<u8>)
    requires
        c.len() <= usize::MAX,
        scan_spec(c) is Some,
    ensures
        spans_within(scan_spec(c)->0, c.len() as int),
{
    lemma_find_from_bounds(c, meta_marker(), 0);
    match find_bytes(c, meta_marker()) {
        None => {},
        Some(ms) => {
            let m0 = Map::<Seq<u8>, Span>::empty().insert(meta_key(), mk_span(ms, 14));
            let base = ms + 14;
            let block = c.subrange(base, c.len() as int);
            lemma_find_from_bounds(block, end_marker(), 0);
            assert(spans_within(m0, c.len() as int));
            match find_bytes(block, end_marker()) {
                None => {},
                Some(be) => {
                    let sub = block.subrange(0, be);
                    assert(spans_within(m0, base + sub.len()));
                    lemma_object_loop_within(sub, 0, 1, base, seq![], m0);
                },
            }
        },
    }
}

// ---------------------------------------------------------------------
// Executable scan
// ---------------------------------------------------------------------

/// Index of the first byte at or after `i` that is not a space, tab,
/// newline or carriage return.
fn skip_ws(text: &[u8], i: usize) -> (r: usize)
    requires
        i <= text@.len(),
    ensures
        r == ws_end(text@, i as int),
        i <= r <= text@.len(),
{
    proof {
        lemma_ws_end(text@, i as int);
    }
    let mut j = i;
    while j < text.len() && (text[j] == 32 || text[j] == 9 || text[j] == 10 || text[j] == 13)
        invariant
            i <= j <= text@.len(),
            ws_end(text@, j as int) == ws_end(text@, i as int),
        decreases text.len() - j,
    {
        j += 1;
    }
    j
}

/// Index of the first byte at or after `i` that is not a space or tab.
fn skip_hspaces(text: &[u8], i: usize) -> (r: usize)
    requires
        i <= text@.len(),
    ensures
        r == hs_end(text@, i as int),
        i <= r <= text@.len(),
{
    proof {
        lemma_hs_end(text@, i as int);
    }
    let mut j = i;
    while j < text.len() && (text[j] == 32 || text[j] == 9)
        invariant
            i <= j <= text@.len(),
            hs_end(text@, j as int) == hs_end(text@, i as int),
        decreases text.len() - j,
    {
        j += 1;
    }
    j
}

fn scan_key(text: &[u8], i: usize) -> (r: usize)
    requires
        i <= text@.len(),
    ensures
        r == key_end(text@, i as int),
        i <= r <= text@.len(),
{
    proof {
        lemma_key_end(text@, i as int);
    }
    let mut j = i;
    while j < text.len() && !(text[j] == 58 || text[j] == 123 || text[j] == 125 || text[j] == 91
        || text[j] == 93 || text[j] == 10)
        invariant
            i <= j <= text@.len(),
            key_end(text@, j as int) == key_end(text@, i as int),
        decreases text.len() - j,
    {
        j += 1;
    }
    j
}

/// End of the plain value starting at `i`, or `None` when the text ends in
/// an escaping backslash.
fn scan_scalar(text: &[u8], i: usize) -> (r: Option<usize>)
    requires
        i <= text@.len(),
    ensures
        r matches Some(j) ==> j == scalar_end(text@, i as int) && i <= j <= text@.len(),
        r is None ==> scalar_end(text@, i as int) > text@.len(),
{
    let mut j = i;
    while j < text.len() && !(text[j] == 123 || text[j] == 125 || text[j] == 91 || text[j] == 93
        || text[j] == 10)
        invariant
            i <= j <= text@.len(),
            scalar_end(text@, j as int) == scalar_end(text@, i as int),
        decreases text.len() - j,
    {
        if text[j] == 92 {
            if text.len() - j < 2 {
                assert(scalar_end(text@, j + 2) == j + 2);
                return None;
            }
            j += 2;
        } else {
            j += 1;
        }
    }
    Some(j)
}

fn is_nil(text: &[u8], i: usize) -> (r: bool)
    ensures
        r == is_nil_at(text@, i as int),
{
    i >= text.len() || text[i] == 10 || text[i] == 125 || text[i] == 93
}

fn is_ascii_ws_byte(b: u8) -> (r: bool)
    ensures
        r == is_ascii_ws(b),
{
    (9 <= b && b <= 13) || b == 32
}

fn is_ws3_bytes(a: u8, b: u8, c: u8) -> (r: bool)
    ensures
        r == is_ws3(a, b, c),
{
    (a == 0xE1 && b == 0x9A && c == 0x80) || (a == 0xE2 && b == 0x80 && ((0x80 <= c && c <= 0x8A)
        || c == 0xA8 || c == 0xA9 || c == 0xAF)) || (a == 0xE2 && b == 0x81 && c == 0x9F) || (a
        == 0xE3 && b == 0x80 && c == 0x80)
}

fn ws_suffix_at(text: &[u8], a: usize, e: usize) -> (k: usize)
    requires
        a <= e <= text@.len(),
    ensures
        k == ws_suffix_len(text@.subrange(a as int, e as int)),
        k <= e - a,
{
    let n = e - a;
    if n >= 1 && is_ascii_ws_byte(text[e - 1]) {
        1
    } else if n >= 2 && text[e - 2] == 0xC2 && (text[e - 1] == 0x85 || text[e - 1] == 0xA0) {
        2
    } else if n >= 3 && is_ws3_bytes(text[e - 3], text[e - 2], text[e - 1]) {
        3
    } else {
        0
    }
}

fn ws_prefix_at(text: &[u8], a: usize, e: usize) -> (k: usize)
    requires
        a <= e <= text@.len(),
    ensures
        k == ws_prefix_len(text@.subrange(a as int, e as int)),
        k <= e - a,
{
    let n = e - a;
    if n >= 1 && is_ascii_ws_byte(text[a]) {
        1
    } else if n >= 2 && text[a] == 0xC2 && (text[a + 1] == 0x85 || text[a + 1] == 0xA0) {
        2
    } else if n >= 3 && is_ws3_bytes(text[a], text[a + 1], text[a + 2]) {
        3
    } else {
        0
    }
}

/// End of `text[a..e]` once trailing whitespace is trimmed.
fn trim_end_at(text: &[u8], a: usize, e: usize) -> (r: usize)
    requires
        a <= e <= text@.len(),
    ensures
        r == a + trim_end_len(text@.subrange(a as int, e as int)),
        a <= r <= e,
{
    let mut cur = e;
    loop
        invariant
            a <= cur <= e <= text@.len(),
            trim_end_len(text@.subrange(a as int, e as int)) == trim_end_len(
                text@.subrange(a as int, cur as int),
            ),
        decreases cur - a,
    {
        let k = ws_suffix_at(text, a, cur);
        if k == 0 {
            return cur;
        }
        assert(text@.subrange(a as int, cur as int).subrange(0, cur - a - k) =~= text@.subrange(
            a as int,
            cur - k,
        ));
        cur -= k;
    }
}

/// Start of `text[a..e]` once leading whitespace is trimmed.
fn trim_start_at(text: &[u8], a: usize, e: usize) -> (r: usize)
    requires
        a <= e <= text@.len(),
    ensures
        r == a + trim_start_len(text@.subrange(a as int, e as int)),
        a <= r <= e,
{
    let mut cur = a;
    loop
        invariant
            a <= cur <= e <= text@.len(),
            (cur - a) + trim_start_len(text@.subrange(cur as int, e as int)) == trim_start_len(
                text@.subrange(a as int, e as int),
            ),
        decreases e - cur,
    {
        let k = ws_prefix_at(text, cur, e);
        if k == 0 {
            return cur;
        }
        assert(text@.subrange(cur as int, e as int).subrange(k as int, e - cur) =~= text@.subrange(
            cur + k,
            e as int,
        ));
        cur += k;
    }
}

/// A copy of `text[a..e]`.
fn copy_range(text: &[u8], a: usize, e: usize) -> (r: Vec<u8>)
    requires
        a <= e <= text@.len(),
    ensures
        r@ == text@.subrange(a as int, e as int),
{
    let mut v: Vec<u8> = Vec::new();
    let mut i = a;
    while i < e
        invariant
            a <= i <= e <= text@.len(),
            v@ == text@.subrange(a as int, i as int),
        decreases e - i,
    {
        v.push(text[i]);
        i += 1;
        assert(v@ =~= text@.subrange(a as int, i as int));
    }
    v
}

/// `text[a..e]` without leading and trailing whitespace.
fn trimmed_copy(text: &[u8], a: usize, e: usize) -> (r: Vec<u8>)
    requires
        a <= e <= text@.len(),
    ensures
        r@ == trim_bytes(text@.subrange(a as int, e as int)),
{
    let e2 = trim_end_at(text, a, e);
    let s2 = trim_start_at(text, a, e2);
    let ghost u = text@.subrange(a as int, e as int).subrange(
        0,
        trim_end_len(text@.subrange(a as int, e as int)),
    );
    assert(u =~= text@.subrange(a as int, e2 as int));
    assert(u.subrange(s2 - a, u.len() as int) =~= text@.subrange(s2 as int, e2 as int));
    copy_range(text, s2, e2)
}

/// Appends the decimal digits of `n`.
fn push_decimal(v: &mut Vec<u8>, n: usize)
    ensures
        final(v)@ == old(v)@ + decimal(n as nat),
    decreases n,
{
    if n < 10 {
        v.push((48 + n) as u8);
        assert(final(v)@ =~= old(v)@ + decimal(n as nat));
    } else {
        push_decimal(v, n / 10);
        v.push((48 + n % 10) as u8);
        assert(final(v)@ =~= old(v)@ + decimal(n as nat));
    }
}

fn child_path_of(path: &Vec<u8>, key: Vec<u8>) -> (r: Vec<u8>)
    ensures
        r@ == child_path(path@, key@),
{
    if path.len() == 0 {
        key
    } else {
        let mut r = path.clone();
        r.push(46);
        let mut k = key;
        r.append(&mut k);
        assert(r@ =~= child_path(path@, key@));
        r
    }
}

fn item_path_of(path: &Vec<u8>, idx: usize) -> (r: Vec<u8>)
    ensures
        r@ == item_path(path@, idx as nat),
{
    let mut r = path.clone();
    r.push(91);
    push_decimal(&mut r, idx);
    r.push(93);
    assert(r@ =~= item_path(path@, idx as nat));
    r
}

/// Records the object starting at `pos` (its opening byte) and its members.
/// Returns the object's span and the number of bytes it covers; `None`
/// where the object cannot be scanned (a value escapes past the block's
/// end).
fn parse_object(
    spans: &mut SpanMap,
    text: &[u8],
    pos: usize,
    base: usize,
    path: &Vec<u8>,
) -> (r: Option<(Span, usize)>)
    requires
        base + text@.len() <= usize::MAX,
        pos < text@.len(),
    ensures
        match object_spec(text@, pos as int, base as int, path@, old(spans)@) {
            None => r is None,
            Some((m, end)) => {
                &&& final(spans)@ == m
                &&& pos < end <= text@.len()
                &&& r matches Some(x) && x.1 == end - pos && x.0 == m[path@]
            },
        },
    decreases text@.len() - pos, 1int,
{
    let ghost m0 = spans@;
    let ghost goal = object_spec(text@, pos as int, base as int, path@, m0);
    let mut i = pos + 1;
    loop
        invariant_except_break
            pos < i <= text@.len(),
            object_loop(text@, pos as int, i as int, base as int, path@, spans@) == goal,
        invariant
            base + text@.len() <= usize::MAX,
            pos < text@.len(),
            goal == object_spec(text@, pos as int, base as int, path@, m0),
            m0 == old(spans)@,
        ensures
            pos < i <= text@.len(),
            object_finish(text@, pos as int, i as int, base as int, path@, spans@) == goal,
        decreases text@.len() - i,
    {
        i = skip_ws(text, i);
        if i >= text.len() || text[i] == 125 {
            break;
        }
        let key_start = i;
        i = scan_key(text, i);
        if i >= text.len() || text[i] != 58 {
            break;
        }
        let key = trimmed_copy(text, key_start, i);
        i = skip_hspaces(text, i + 1);
        if is_nil(text, i) {
            continue;
        }
        let child = child_path_of(path, key);
        match parse_value_into(spans, text, i, base, &child) {
            Some((_child_span, consumed)) => {
                if consumed == 0 {
                    return None;
                }
                i = i + consumed;
            },
            None => {
                return None;
            },
        }
    }
    let mut end = i;
    if end < text.len() && text[end] == 125 {
        end += 1;
    }
    let span = Span::new(base + pos, end - pos);
    spans.insert(path.clone(), span);
    Some((span, end - pos))
}

/// Records the array starting at `pos` (its opening byte) and its items;
/// `None` as for [`parse_object`].
fn parse_array(
    spans: &mut SpanMap,
    text: &[u8],
    pos: usize,
    base: usize,
    path: &Vec<u8>,
) -> (r: Option<(Span, usize)>)
    requires
        base + text@.len() <= usize::MAX,
        pos < text@.len(),
    ensures
        match array_spec(text@, pos as int, base as int, path@, old(spans)@) {
            None => r is None,
            Some((m, end)) => {
                &&& final(spans)@ == m
                &&& pos < end <= text@.len()
                &&& r matches Some(x) && x.1 == end - pos && x.0 == m[path@]
            },
        },
    decreases text@.len() - pos, 1int,
{
    let ghost m0 = spans@;
    let ghost goal = array_spec(text@, pos as int, base as int, path@, m0);
    let mut i = pos + 1;
    let mut index: usize = 0;
    loop
        invariant_except_break
            pos < i <= text@.len(),
            index < i - pos,
            array_loop(text@, pos as int, i as int, index as nat, base as int, path@, spans@)
                == goal,
        invariant
            base + text@.len() <= usize::MAX,
            pos < text@.len(),
            goal == array_spec(text@, pos as int, base as int, path@, m0),
            m0 == old(spans)@,
        ensures
            pos < i <= text@.len(),
            array_finish(text@, pos as int, i as int, base as int, path@, spans@) == goal,
        decreases text@.len() - i,
    {
        i = skip_ws(text, i);
        if i >= text.len() || text[i] == 93 {
            break;
        }
        let elem_path = item_path_of(path, index);
        match parse_value_into(spans, text, i, base, &elem_path) {
            Some((_elem_span, consumed)) => {
                if consumed == 0 {
                    return None;
                }
                i = i + consumed;
            },
            None => {
                return None;
            },
        }
        index += 1;
    }
    let mut end = i;
    if end < text.len() && text[end] == 93 {
        end += 1;
    }
    let span = Span::new(base + pos, end - pos);
    spans.insert(path.clone(), span);
    Some((span, end - pos))
}

/// Records the value starting at `pos`: an object, an array, or a plain
/// value running to the next newline or bracket (trailing whitespace
/// excluded from its span); `None` where a plain value escapes past the end
/// of the text.
fn parse_value_into(
    spans: &mut SpanMap,
    text: &[u8],
    pos: usize,
    base: usize,
    path: &Vec<u8>,
) -> (r: Option<(Span, usize)>)
    requires
        base + text@.len() <= usize::MAX,
        pos < text@.len(),
    ensures
        match value_spec(text@, pos as int, base as int, path@, old(spans)@) {
            None => r is None,
            Some((m, end)) => {
                &&& final(spans)@ == m
                &&& pos <= end <= text@.len()
                &&& r matches Some(x) && x.1 == end - pos && x.0 == m[path@]
            },
        },
    decreases text@.len() - pos, 2int,
{
    if text[pos] == 123 {
        parse_object(spans, text, pos, base, path)
    } else if text[pos] == 91 {
        parse_array(spans, text, pos, base, path)
    } else {
        let j = match scan_scalar(text, pos) {
            Some(j) => j,
            None => {
                return None;
            },
        };
        let trimmed_end = trim_end_at(text, pos, j);
        let span = Span::new(base + pos, trimmed_end - pos);
        spans.insert(path.clone(), span);
        Some((span, j - pos))
    }
}

/// Builds the span table of `content`: the `@document.meta` directive under
/// `@meta`, and every non-empty field value of its block under its path;
/// `None` where a value of the block escapes past its end.
pub fn try_scan_meta_spans(content: &str) -> (r: Option<SpanMap>)
    ensures
        match scan_spec(content.spec_bytes()) {
            Some(m) => r matches Some(s) && s@ == m,
            None => r is None,
        },
{
    let bytes = content.as_bytes();
    let mut spans = SpanMap::new();
    let marker: Vec<u8> = vec![64u8, 100, 111, 99, 117, 109, 101, 110, 116, 46, 109, 101, 116, 97];
    assert(marker@ =~= meta_marker());
    let meta_start = match find_bytes_from(bytes, marker.as_slice(), 0) {
        Some(ms) => ms,
        None => {
            return Some(spans);
        },
    };
    proof {
        lemma_find_from_bounds(bytes@, meta_marker(), 0);
    }
    let meta_key_bytes: Vec<u8> = vec![64u8, 109, 101, 116, 97];
    assert(meta_key_bytes@ =~= meta_key());
    spans.insert(meta_key_bytes, Span::new(meta_start, 14));
    let blen = bytes.len();
    assert(meta_start + 14 <= blen);
    let base = meta_start + 14;
    let block = copy_range(bytes, base, bytes.len());
    let end_bytes: Vec<u8> = vec![64u8, 101, 110, 100];
    assert(end_bytes@ =~= end_marker());
    let block_end = match find_bytes_from(block.as_slice(), end_bytes.as_slice(), 0) {
        Some(be) => be,
        None => {
            return Some(spans);
        },
    };
    proof {
        lemma_find_from_bounds(block@, end_marker(), 0);
    }
    let text = copy_range(block.as_slice(), 0, block_end);
    let root: Vec<u8> = Vec::new();
    assert(root@ =~= Seq::<u8>::empty());
    if text.len() == 0 {
        return None;
    }
    match parse_object(&mut spans, text.as_slice(), 0, base, &root) {
        Some(_) => Some(spans),
        None => None,
    }
}

/// The span table of `content` (see [`try_scan_meta_spans`]), for content
/// whose metadata block scans.
pub fn scan_meta_spans(content: &str) -> (r: SpanMap)
    requires
        scan_spec(content.spec_bytes()) is Some,
    ensures
        r@ == scan_spec(content.spec_bytes())->0,
{
    match try_scan_meta_spans(content) {
        Some(s) => s,
        None => SpanMap::new(),
    }
}

/// Span of the value of the field at dot/bracket path `field`, if recorded.
pub fn find_field_span(content: &str, field: &str) -> (r: Option<Span>)
    requires
        scan_spec(content.spec_bytes()) is Some,
    ensures
        r == (if (scan_spec(content.spec_bytes())->0).contains_key(field.spec_bytes()) {
            Some((scan_spec(content.spec_bytes())->0)[field.spec_bytes()])
        } else {
            None
        }),
{
    let spans = scan_meta_spans(content);
    spans.get(field.as_bytes())
}


// ---------------------------------------------------------------------
// Attaching spans to diagnostics
// ---------------------------------------------------------------------

pub open spec fn span_at(m: Map<Seq<u8>, Span>, key: Seq<u8>) -> Option<Span> {
    if m.contains_key(key) {
        Some(m[key])
    } else {
        None
    }
}

/// A diagnostic with the span it points at: the `@document.meta` directive
/// for a missing field, the field's value for a type mismatch, a constraint
/// violation or an unknown field (none where the value was not found); a
/// failed rule condition keeps no span.
pub open spec fn enrich_one(e: ErrorV, m: Map<Seq<u8>, Span>) -> ErrorV {
    match e {
        ErrorV::MissingField { field, .. } => ErrorV::MissingField {
            field,
            span: span_at(m, meta_key()),
        },
        ErrorV::TypeMismatch { field, expected, actual, .. } => ErrorV::TypeMismatch {
            field,
            expected,
            actual,
            span: span_at(m, encode_utf8(field)),
        },
        ErrorV::ConstraintViolation { field, message, .. } => ErrorV::ConstraintViolation {
            field,
            message,
            span: span_at(m, encode_utf8(field)),
        },
        ErrorV::UnknownField { field, suggested, .. } => ErrorV::UnknownField {
            field,
            suggested,
            span: span_at(m, encode_utf8(field)),
        },
        ErrorV::RuleConditionFailed { message } => ErrorV::RuleConditionFailed { message },
    }
}

fn clone_opt(s: &Option<String>) -> (r: Option<String>)
    ensures
        opt_str_view(r) == opt_str_view(*s),
{
    match s {
        Some(x) => Some(x.clone()),
        None => None,
    }
}

/// Points each diagnostic at its place in the document (see
/// [`enrich_one`]).
pub fn enrich_spans(errors: Vec<ValidationError>, spans: &SpanMap) -> (r: Vec<ValidationError>)
    ensures
        r@.len() == errors@.len(),
        forall|i: int| 0 <= i < r@.len() ==> (#[trigger] r@[i])@ == enrich_one(errors@[i]@, spans@),
{
    let meta: Vec<u8> = vec![64u8, 109, 101, 116, 97];
    assert(meta@ =~= meta_key());
    let mut out: Vec<ValidationError> = Vec::new();
    let mut i: usize = 0;
    while i < errors.len()
        invariant
            i <= errors@.len(),
            meta@ == meta_key(),
            out@.len() == i,
            forall|j: int| 0 <= j < i ==> (#[trigger] out@[j])@ == enrich_one(errors@[j]@, spans@),
        decreases errors.len() - i,
    {
        let e = match &errors[i] {
            ValidationError::MissingField { field, .. } => ValidationError::MissingField {
                field: field.clone(),
                span: spans.get(meta.as_slice()),
            },
            ValidationError::TypeMismatch { field, expected, actual, .. } => {
                let span = spans.get(field.as_str().as_bytes());
                ValidationError::TypeMismatch {
                    field: field.clone(),
                    expected: expected.clone(),
                    actual: actual.clone(),
                    span,
                }
            },
            ValidationError::ConstraintViolation { field, message, .. } => {
                let span = spans.get(field.as_str().as_bytes());
                ValidationError::ConstraintViolation {
                    field: field.clone(),
                    message: message.clone(),
                    span,
                }
            },
            ValidationError::UnknownField { field, suggested, .. } => {
                let span = spans.get(field.as_str().as_bytes());
                ValidationError::UnknownField {
                    field: field.clone(),
                    suggested: clone_opt(suggested),
                    span,
                }
            },
            ValidationError::RuleConditionFailed { message } => {
                ValidationError::RuleConditionFailed { message: message.clone() }
            },
        };
        out.push(e);
        i += 1;
    }
    out
}

} // verus!
