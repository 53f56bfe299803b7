//! Post metadata read by the build: categories, drafts, permalinks and the
//! sitemap.
use vstd::prelude::*;

use crate::hierarchy::keys_distinct;
use crate::links::{canonical_route_spec, route_for, trimmed_chars, PageLinks};
use crate::paths::{
    extension, path_extension, path_starts_with, path_with_extension, starts_with, with_extension,
};
use crate::schema::{
    lemma_value_view_parts, lookup, opt_str_view, strings_view, table_get, value_wf, DataV,
    MetaData, MetaValue, ValueV,
};
use crate::search::trim_ws;
use crate::text::{lowercase, lowercase_spec, names_have, str_equal, string_from_chars};

verus! {

// ---------------------------------------------------------------------
// Fields of a post
// ---------------------------------------------------------------------

/// Field `key` of a metadata value, when the value is a table that has it.
pub open spec fn field_of(post: ValueV, key: Seq<char>) -> Option<ValueV> {
    match post.data {
        DataV::Table(t) => lookup(t, key),
        _ => None,
    }
}

/// Field `key` of a metadata value (`toml::Value::get` with a key).
pub fn field<'a>(post: &'a MetaValue, key: &str) -> (r: Option<&'a MetaValue>)
    ensures
        match field_of(post@, key@) {
            Some(v) => r matches Some(x) && x@ == v,
            None => r is None,
        },
{
    proof {
        lemma_value_view_parts(*post);
    }
    match &post.data {
        MetaData::Table(t) => table_get(t, key),
        _ => None,
    }
}

/// The string field `key` of a metadata value, if it has one.
pub open spec fn str_field(post: ValueV, key: Seq<char>) -> Option<Seq<char>> {
    match field_of(post, key) {
        Some(v) => match v.data {
            DataV::String(s) => Some(s),
            _ => None,
        },
        None => None,
    }
}

fn str_field_exec(post: &MetaValue, key: &str) -> (r: Option<String>)
    ensures
        opt_str_view(r) == str_field(post@, key@),
{
    match field(post, key) {
        Some(v) => match &v.data {
            MetaData::String(s) => Some(s.clone()),
            _ => None,
        },
        None => None,
    }
}

// ---------------------------------------------------------------------
// Categories
// ---------------------------------------------------------------------

/// The strings among some array items, in order.
pub open spec fn string_items(items: Seq<ValueV>) -> Seq<Seq<char>>
    decreases items.len(),
{
    if items.len() == 0 {
        seq![]
    } else {
        string_items(items.drop_last()) + match items.last().data {
            DataV::String(s) => seq![s],
            _ => seq![],
        }
    }
}

/// The category strings of a post: the strings of its `categories` array.
pub open spec fn post_categories(post: ValueV) -> Seq<Seq<char>> {
    match field_of(post, "categories"@) {
        Some(v) => match v.data {
            DataV::Array(items) => string_items(items),
            _ => seq![],
        },
        None => seq![],
    }
}

/// The category strings of a post.
pub fn category_strings(post: &MetaValue) -> (r: Vec<String>)
    ensures
        strings_view(r@) == post_categories(post@),
{
    let mut out: Vec<String> = Vec::new();
    match field(post, "categories") {
        Some(v) => {
            proof {
                lemma_value_view_parts(*v);
            }
            match &v.data {
                MetaData::Array(a) => {
                    let ghost items = crate::schema::items_view(a@);
                    let mut i: usize = 0;
                    while i < a.len()
                        invariant
                            i <= a@.len(),
                            items == crate::schema::items_view(a@),
                            strings_view(out@) == string_items(items.take(i as int)),
                        decreases a.len() - i,
                    {
                        assert(items.take(i + 1).drop_last() =~= items.take(i as int));
                        assert(items.take(i + 1).last() == a@[i as int]@);
                        match &a[i].data {
                            MetaData::String(s) => {
                                out.push(s.clone());
                            },
                            _ => {},
                        }
                        assert(strings_view(out@) =~= string_items(items.take(i + 1)));
                        i += 1;
                    }
                    assert(items.take(a@.len() as int) =~= items);
                },
                _ => {
                    assert(strings_view(out@) =~= seq![]);
                },
            }
        },
        None => {
            assert(strings_view(out@) =~= seq![]);
        },
    }
    out
}

/// The category name a post's category string stands for: trimmed, lower
/// case.
pub open spec fn category_key(s: Seq<char>) -> Seq<char> {
    lowercase_spec(trim_ws(s))
}

/// Some category string among the first `n` of `cats` stands for `k`.
pub open spec fn cats_have(cats: Seq<String>, n: int, k: Seq<char>) -> bool {
    exists|j: int| 0 <= j < n && j < cats.len() && category_key((#[trigger] cats[j])@) == k
}

/// Some category string of one of the first `n` posts stands for `k`.
pub open spec fn posts_have(posts: Seq<Vec<String>>, n: int, k: Seq<char>) -> bool {
    exists|q: int| 0 <= q < n && q < posts.len() && #[trigger] cats_have(posts[q]@, posts[q]@.len() as int, k)
}

/// The category names that the category strings stand for, each once, in
/// order of first appearance.
fn distinct_categories(posts: &Vec<Vec<String>>) -> (r: Vec<String>)
    ensures
        forall|a: int, b: int| 0 <= a < b < r@.len() ==> r@[a]@ != r@[b]@,
        forall|k: Seq<char>|
            #[trigger] names_have(r@, k) <==> posts_have(posts@, posts@.len() as int, k),
{
    let mut out: Vec<String> = Vec::new();
    let mut p: usize = 0;
    while p < posts.len()
        invariant
            p <= posts@.len(),
            forall|a: int, b: int| 0 <= a < b < out@.len() ==> out@[a]@ != out@[b]@,
            forall|k: Seq<char>| #[trigger] names_have(out@, k) <==> posts_have(posts@, p as int, k),
        decreases posts.len() - p,
    {
        let cats = &posts[p];
        let mut j: usize = 0;
        while j < cats.len()
            invariant
                p < posts@.len(),
                *cats == posts@[p as int],
                j <= cats@.len(),
                forall|a: int, b: int| 0 <= a < b < out@.len() ==> out@[a]@ != out@[b]@,
                forall|k: Seq<char>|
                    #[trigger] names_have(out@, k) <==> (posts_have(posts@, p as int, k)
                        || cats_have(cats@, j as int, k)),
            decreases cats.len() - j,
        {
            let trimmed = crate::links::trimmed_chars(cats[j].as_str());
            let t = string_from_chars(&trimmed, 0, trimmed.len());
            assert(t@ =~= trim_ws(cats@[j as int]@));
            let key = lowercase(t.as_str());
            let mut found = false;
            let mut i: usize = 0;
            while i < out.len() && !found
                invariant
                    i <= out@.len(),
                    found ==> i < out@.len() && out@[i as int]@ == key@,
                    !found ==> forall|a: int| 0 <= a < i ==> out@[a]@ != key@,
                decreases out.len() - i + (if found { 0int } else { 1int }),
            {
                if str_equal(out[i].as_str(), key.as_str()) {
                    found = true;
                } else {
                    i += 1;
                }
            }
            let ghost before = out@;
            let ghost kj = key@;
            assert(kj == category_key(cats@[j as int]@));
            if !found {
                out.push(key);
            }
            proof {
                assert forall|k: Seq<char>|
                    #[trigger] names_have(out@, k) <==> (posts_have(posts@, p as int, k)
                        || cats_have(cats@, j + 1, k)) by {
                    if cats_have(cats@, j + 1, k) {
                        let jj = choose|jj: int|
                            0 <= jj < j + 1 && jj < cats@.len() && category_key((#[trigger] cats@[jj])@) == k;
                        if jj < j {
                            assert(cats_have(cats@, j as int, k));
                        }
                    }
                    if cats_have(cats@, j as int, k) {
                        let jj = choose|jj: int|
                            0 <= jj < j && jj < cats@.len() && category_key((#[trigger] cats@[jj])@) == k;
                        assert(cats_have(cats@, j + 1, k));
                    }
                    if k == kj {
                        assert(cats_have(cats@, j + 1, k));
                        if found {
                            assert(out@[i as int]@ == k);
                        } else {
                            assert(out@[out@.len() - 1]@ == k);
                        }
                        assert(names_have(out@, k));
                    }
                    if names_have(out@, k) {
                        let i2 = choose|i2: int| 0 <= i2 < out@.len() && (#[trigger] out@[i2])@ == k;
                        if i2 < before.len() {
                            assert(before[i2]@ == k);
                            assert(names_have(before, k));
                        }
                    }
                    if names_have(before, k) {
                        let i2 = choose|i2: int| 0 <= i2 < before.len() && (#[trigger] before[i2])@ == k;
                        assert(out@[i2]@ == k);
                    }
                }
            }
            j += 1;
        }
        proof {
            assert forall|k: Seq<char>|
                #[trigger] names_have(out@, k) <==> posts_have(posts@, p + 1, k) by {
                if posts_have(posts@, p + 1, k) {
                    let q = choose|q: int|
                        0 <= q < p + 1 && q < posts@.len() && #[trigger] cats_have(posts@[q]@, posts@[q]@.len() as int, k);
                    if q < p {
                        assert(posts_have(posts@, p as int, k));
                    }
                }
                if posts_have(posts@, p as int, k) {
                    let q = choose|q: int|
                        0 <= q < p && q < posts@.len() && #[trigger] cats_have(posts@[q]@, posts@[q]@.len() as int, k);
                    assert(posts_have(posts@, p + 1, k));
                }
                if cats_have(cats@, cats@.len() as int, k) {
                    assert(posts_have(posts@, p + 1, k));
                }
            }
        }
        p += 1;
    }
    out
}

/// Some category string of some post stands for `k`.
pub open spec fn has_category(posts: Seq<MetaValue>, k: Seq<char>) -> bool {
    exists|q: int, j: int|
        0 <= q < posts.len() && 0 <= j < post_categories(posts[q]@).len() && category_key(
            #[trigger] post_categories(posts[q]@)[j],
        ) == k
}

/// All categories of the posts, each once, in order of first appearance: a
/// category is a category string of a post, trimmed and in lower case.
pub fn collect_all_posts_categories(posts: &Vec<MetaValue>) -> (r: Vec<String>)
    ensures
        forall|a: int, b: int| 0 <= a < b < r@.len() ==> r@[a]@ != r@[b]@,
        forall|k: Seq<char>| #[trigger] names_have(r@, k) <==> has_category(posts@, k),
{
    let mut all: Vec<Vec<String>> = Vec::new();
    let mut q: usize = 0;
    while q < posts.len()
        invariant
            q <= posts@.len(),
            all@.len() == q,
            forall|i: int| 0 <= i < q ==> strings_view((#[trigger] all@[i])@) == post_categories(posts@[i]@),
        decreases posts.len() - q,
    {
        all.push(category_strings(&posts[q]));
        q += 1;
    }
    let r = distinct_categories(&all);
    proof {
        assert forall|k: Seq<char>| #[trigger] names_have(r@, k) <==> has_category(posts@, k) by {
            if has_category(posts@, k) {
                let (q, j) = choose|q: int, j: int|
                    0 <= q < posts@.len() && 0 <= j < post_categories(posts@[q]@).len() && category_key(
                        #[trigger] post_categories(posts@[q]@)[j],
                    ) == k;
                assert(strings_view(all@[q]@)[j] == all@[q]@[j]@);
                assert(cats_have(all@[q]@, all@[q]@.len() as int, k));
                assert(posts_have(all@, all@.len() as int, k));
            }
            if posts_have(all@, all@.len() as int, k) {
                let q = choose|q: int|
                    0 <= q < all@.len() && q < all@.len() && #[trigger] cats_have(all@[q]@, all@[q]@.len() as int, k);
                let j = choose|j: int|
                    0 <= j < all@[q]@.len() && j < all@[q]@.len() && category_key((#[trigger] all@[q]@[j])@) == k;
                assert(strings_view(all@[q]@)[j] == all@[q]@[j]@);
                assert(post_categories(posts@[q]@)[j] == all@[q]@[j]@);
            }
        }
    }
    r
}

/// A post is in category `cat` when one of its category strings, trimmed,
/// is `cat` (compared as written).
pub open spec fn in_category(post: ValueV, cat: Seq<char>) -> bool {
    exists|j: int|
        0 <= j < post_categories(post).len() && trim_ws(#[trigger] post_categories(post)[j]) == cat
}

/// Indices of the posts in category `cat` among the first `n`, in order.
pub open spec fn category_posts(posts: Seq<MetaValue>, cat: Seq<char>, n: int) -> Seq<int>
    decreases n,
{
    if n <= 0 {
        seq![]
    } else {
        category_posts(posts, cat, n - 1) + if in_category(posts[n - 1]@, cat) {
            seq![n - 1]
        } else {
            seq![]
        }
    }
}

/// The posts (by index) of one category, in order.
pub fn posts_in_category(posts: &Vec<MetaValue>, category: &str) -> (r: Vec<usize>)
    ensures
        crate::toc::usizes(r@) == category_posts(posts@, category@, posts@.len() as int),
{
    let mut out: Vec<usize> = Vec::new();
    let mut q: usize = 0;
    while q < posts.len()
        invariant
            q <= posts@.len(),
            crate::toc::usizes(out@) == category_posts(posts@, category@, q as int),
        decreases posts.len() - q,
    {
        let cats = category_strings(&posts[q]);
        let mut found = false;
        let mut j: usize = 0;
        while j < cats.len() && !found
            invariant
                j <= cats@.len(),
                strings_view(cats@) == post_categories(posts@[q as int]@),
                found ==> in_category(posts@[q as int]@, category@),
                !found ==> forall|jj: int| 0 <= jj < j ==> trim_ws(cats@[jj]@) != category@,
            decreases cats.len() - j + (if found { 0int } else { 1int }),
        {
            let t = trimmed_chars(cats[j].as_str());
            let ts = string_from_chars(&t, 0, t.len());
            assert(ts@ =~= trim_ws(cats@[j as int]@));
            if str_equal(ts.as_str(), category) {
                assert(strings_view(cats@)[j as int] == cats@[j as int]@);
                found = true;
            } else {
                j += 1;
            }
        }
        proof {
            if !found {
                assert forall|jj: int| 0 <= jj < post_categories(posts@[q as int]@).len() implies trim_ws(
                    #[trigger] post_categories(posts@[q as int]@)[jj],
                ) != category@ by {
                    assert(strings_view(cats@)[jj] == cats@[jj]@);
                }
            }
        }
        let ghost before = out@;
        if found {
            out.push(q);
        }
        assert(crate::toc::usizes(out@) =~= category_posts(posts@, category@, q + 1));
        q += 1;
    }
    out
}

// ---------------------------------------------------------------------
// Drafts and permalinks
// ---------------------------------------------------------------------

/// Whether a page is a draft: its `draft` field, `false` when it has none;
/// an error naming the page when the field is not a boolean.
pub open spec fn draft_spec(metadata: ValueV, path: Seq<char>) -> Result<bool, Seq<char>> {
    match field_of(metadata, "draft"@) {
        None => Ok(false),
        Some(v) => match v.data {
            DataV::Boolean(b) => Ok(b),
            _ => Err("'draft' field must be a boolean for '"@ + path + "'"@),
        },
    }
}

pub fn page_draft(metadata: &MetaValue, path: &str) -> (r: Result<bool, String>)
    ensures
        match r {
            Ok(b) => draft_spec(metadata@, path@) == Ok::<bool, Seq<char>>(b),
            Err(e) => draft_spec(metadata@, path@) == Err::<bool, Seq<char>>(e@),
        },
{
    match field(metadata, "draft") {
        None => Ok(false),
        Some(v) => match &v.data {
            MetaData::Boolean(b) => Ok(*b),
            _ => Err(crate::text::concat3("'draft' field must be a boolean for '", path, "'")),
        },
    }
}

/// The permalink a built page reports: its `permalink` string, `/` when it
/// has none.
pub fn page_permalink(metadata: &MetaValue) -> (r: String)
    ensures
        r@ == match str_field(metadata@, "permalink"@) {
            Some(p) => p,
            None => "/"@,
        },
{
    match str_field_exec(metadata, "permalink") {
        Some(p) => p,
        None => String::from_str("/"),
    }
}

/// A post is tagged `cat` when one of its category strings is `cat`
/// exactly.
pub open spec fn tagged(post: ValueV, cat: Seq<char>) -> bool {
    post_categories(post).contains(cat)
}

/// Indices of the posts tagged `cat` among the first `n`, in order.
pub open spec fn tagged_posts(posts: Seq<MetaValue>, cat: Seq<char>, n: int) -> Seq<int>
    decreases n,
{
    if n <= 0 {
        seq![]
    } else {
        tagged_posts(posts, cat, n - 1) + if tagged(posts[n - 1]@, cat) {
            seq![n - 1]
        } else {
            seq![]
        }
    }
}

/// The posts (by index) whose category strings hold `category` as written,
/// in order.
pub fn posts_with_category(posts: &Vec<MetaValue>, category: &str) -> (r: Vec<usize>)
    ensures
        crate::toc::usizes(r@) == tagged_posts(posts@, category@, posts@.len() as int),
{
    let mut out: Vec<usize> = Vec::new();
    let mut q: usize = 0;
    while q < posts.len()
        invariant
            q <= posts@.len(),
            crate::toc::usizes(out@) == tagged_posts(posts@, category@, q as int),
        decreases posts.len() - q,
    {
        let cats = category_strings(&posts[q]);
        let found = crate::hierarchy::contains_str(&cats, category);
        if found {
            out.push(q);
        }
        assert(crate::toc::usizes(out@) =~= tagged_posts(posts@, category@, q + 1));
        q += 1;
    }
    out
}

/// Whether a page is a draft when only a boolean `draft` field counts.
pub fn draft_or_false(metadata: &MetaValue) -> (r: bool)
    ensures
        r == (field_of(metadata@, "draft"@) matches Some(v) && v.data matches DataV::Boolean(b) && b),
{
    match field(metadata, "draft") {
        Some(v) => match &v.data {
            MetaData::Boolean(b) => *b,
            _ => false,
        },
        None => false,
    }
}

// ---------------------------------------------------------------------
// Order of posts
// ---------------------------------------------------------------------

/// The instant an RFC 3339 date-time stands for, as whole seconds since the
/// Unix epoch and nanoseconds within that second; `None` when the text is
/// not an RFC 3339 date-time.
pub uninterp spec fn rfc3339_instant(s: Seq<char>) -> Option<(i64, u32)>;

/// `chrono::DateTime::parse_from_rfc3339`, taken as the parsed instant's
/// `timestamp()` and `timestamp_subsec_nanos()`. Claimed: the result
/// depends on `s` alone.
#[verifier::external_body]
fn parse_rfc3339(s: &str) -> (r: Option<(i64, u32)>)
    ensures
        r == rfc3339_instant(s@),
{
    match chrono::DateTime::parse_from_rfc3339(s) {
        Ok(d) => Some((d.timestamp(), d.timestamp_subsec_nanos())),
        Err(_) => None,
    }
}

/// When a post was created, for ordering: its `created` string read as an
/// RFC 3339 date-time; the Unix epoch when it has none or it is not valid.
pub open spec fn created_key(post: ValueV) -> (i64, u32) {
    let text = match str_field(post, "created"@) {
        Some(s) => s,
        None => seq![],
    };
    match rfc3339_instant(text) {
        Some(k) => k,
        None => (0i64, 0u32),
    }
}

/// Instant `a` is later than instant `b`.
pub open spec fn later(a: (i64, u32), b: (i64, u32)) -> bool {
    a.0 > b.0 || (a.0 == b.0 && a.1 > b.1)
}

pub open spec fn created_keys(posts: Seq<MetaValue>) -> Seq<(i64, u32)> {
    Seq::new(posts.len(), |i: int| created_key(posts[i]@))
}

/// Post `a` is listed before post `b`: it is newer, or as new and first in
/// the input.
pub open spec fn listed_before(keys: Seq<(i64, u32)>, a: int, b: int) -> bool {
    later(keys[a], keys[b]) || (keys[a] == keys[b] && a < b)
}

/// `ord` lists every post once, newest first, posts created at the same
/// instant in their input order (a stable sort, newest first).
pub open spec fn is_created_order(keys: Seq<(i64, u32)>, ord: Seq<int>) -> bool {
    &&& ord.len() == keys.len()
    &&& forall|i: int| 0 <= i < ord.len() ==> 0 <= #[trigger] ord[i] < keys.len()
    &&& forall|i: int, j: int|
        0 <= i < j < ord.len() ==> listed_before(keys, #[trigger] ord[i], #[trigger] ord[j])
}

fn created_of(post: &MetaValue) -> (r: (i64, u32))
    ensures
        r == created_key(post@),
{
    let text = match str_field_exec(post, "created") {
        Some(s) => s,
        None => String::new(),
    };
    match parse_rfc3339(text.as_str()) {
        Some(k) => k,
        None => (0, 0),
    }
}

fn later_exec(a: (i64, u32), b: (i64, u32)) -> (r: bool)
    ensures
        r == later(a, b),
{
    a.0 > b.0 || (a.0 == b.0 && a.1 > b.1)
}

/// The order in which the posts are listed: newest first by `created`.
pub fn created_order(posts: &Vec<MetaValue>) -> (r: Vec<usize>)
    ensures
        is_created_order(created_keys(posts@), crate::toc::usizes(r@)),
{
    let ghost keys = created_keys(posts@);
    let mut keyv: Vec<(i64, u32)> = Vec::new();
    let mut q: usize = 0;
    while q < posts.len()
        invariant
            q <= posts@.len(),
            keys == created_keys(posts@),
            keyv@ == keys.take(q as int),
        decreases posts.len() - q,
    {
        keyv.push(created_of(&posts[q]));
        assert(keyv@ =~= keys.take(q + 1));
        q += 1;
    }
    assert(keyv@ =~= keys);
    let mut ord: Vec<usize> = Vec::new();
    let mut n: usize = 0;
    while n < keyv.len()
        invariant
            keyv@ == keys,
            n <= keys.len(),
            ord@.len() == n,
            forall|i: int| 0 <= i < n ==> #[trigger] ord@[i] < n,
            forall|i: int, j: int|
                0 <= i < j < n ==> listed_before(keys, #[trigger] ord@[i] as int, #[trigger] ord@[j] as int),
        decreases keys.len() - n,
    {
        let kn = keyv[n];
        let mut p: usize = 0;
        while p < ord.len() && !later_exec(kn, keyv[ord[p]])
            invariant
                keyv@ == keys,
                n < keys.len(),
                kn == keys[n as int],
                ord@.len() == n,
                forall|i: int| 0 <= i < n ==> #[trigger] ord@[i] < n,
                p <= n,
                forall|i: int| 0 <= i < p ==> !later(kn, keys[#[trigger] ord@[i] as int]),
            decreases n - p,
        {
            p += 1;
        }
        let ghost old_ord = ord@;
        ord.insert(p, n);
        proof {
            assert forall|i: int| 0 <= i < n + 1 implies #[trigger] ord@[i] < n + 1 by {
                if i < p {
                    assert(ord@[i] == old_ord[i]);
                } else if i > p {
                    assert(ord@[i] == old_ord[i - 1]);
                }
            }
            assert forall|i: int, j: int|
                0 <= i < j < n + 1 implies listed_before(keys, #[trigger] ord@[i] as int, #[trigger] ord@[j] as int) by {
                if j < p {
                    assert(ord@[i] == old_ord[i] && ord@[j] == old_ord[j]);
                } else if j == p {
                    assert(ord@[i] == old_ord[i]);
                    assert(!later(kn, keys[old_ord[i] as int]));
                } else if i < p {
                    assert(ord@[i] == old_ord[i] && ord@[j] == old_ord[j - 1]);
                    assert(listed_before(keys, old_ord[i] as int, old_ord[j - 1] as int));
                } else if i == p {
                    assert(ord@[j] == old_ord[j - 1]);
                    assert(later(kn, keys[old_ord[p as int] as int]));
                    if j - 1 > p {
                        assert(listed_before(keys, old_ord[p as int] as int, old_ord[j - 1] as int));
                    }
                } else {
                    assert(ord@[i] == old_ord[i - 1] && ord@[j] == old_ord[j - 1]);
                    assert(listed_before(keys, old_ord[i - 1] as int, old_ord[j - 1] as int));
                }
            }
        }
        n += 1;
    }
    proof {
        assert forall|i: int| 0 <= i < ord@.len() implies 0 <= #[trigger] crate::toc::usizes(ord@)[i] < keys.len() by {
            assert(crate::toc::usizes(ord@)[i] == ord@[i] as int);
        }
        assert forall|i: int, j: int|
            0 <= i < j < ord@.len() implies listed_before(keys, #[trigger] crate::toc::usizes(ord@)[i], #[trigger] crate::toc::usizes(ord@)[j]) by {
            assert(crate::toc::usizes(ord@)[i] == ord@[i] as int);
            assert(crate::toc::usizes(ord@)[j] == ord@[j] as int);
        }
    }
    ord
}

/// The posts listed newest first by `created` (see [`created_order`]).
pub fn sort_posts_by_created(posts: &Vec<MetaValue>) -> (r: Vec<MetaValue>)
    ensures
        exists|ord: Seq<int>|
            is_created_order(created_keys(posts@), ord) && r@.len() == ord.len() && forall|i: int|
                0 <= i < r@.len() ==> (#[trigger] r@[i])@ == posts@[ord[i]]@,
{
    let ord = created_order(posts);
    let ghost o = crate::toc::usizes(ord@);
    let mut out: Vec<MetaValue> = Vec::new();
    let mut i: usize = 0;
    while i < ord.len()
        invariant
            o == crate::toc::usizes(ord@),
            is_created_order(created_keys(posts@), o),
            i <= ord@.len(),
            out@.len() == i,
            forall|k: int| 0 <= k < i ==> (#[trigger] out@[k])@ == posts@[o[k]]@,
        decreases ord.len() - i,
    {
        assert(o[i as int] == ord@[i as int] as int);
        assert(0 <= o[i as int] < posts@.len());
        out.push(posts[ord[i]].clone());
        i += 1;
    }
    out
}

// ---------------------------------------------------------------------
// Loaded metadata
// ---------------------------------------------------------------------

/// A date-time value as a string (its text as read stays).
pub open spec fn datetime_as_string(v: ValueV) -> ValueV {
    match v.data {
        DataV::Datetime(s) => ValueV { data: DataV::String(s), text: v.text },
        _ => v,
    }
}

/// Metadata with its top-level date-time fields turned into strings.
pub open spec fn normalized_datetimes(md: ValueV) -> ValueV {
    match md.data {
        DataV::Table(t) => ValueV {
            data: DataV::Table(Seq::new(t.len(), |i: int| (t[i].0, datetime_as_string(t[i].1)))),
            text: md.text,
        },
        _ => md,
    }
}

fn datetime_to_string(v: &MetaValue) -> (r: MetaValue)
    ensures
        r@ == datetime_as_string(v@),
{
    match &v.data {
        MetaData::Datetime(s) => {
            let r = MetaValue { data: MetaData::String(s.clone()), text: v.text.clone() };
            proof {
                lemma_value_view_parts(*v);
                lemma_value_view_parts(r);
            }
            r
        },
        _ => v.clone(),
    }
}

/// Turns the top-level date-time fields of the metadata into strings.
pub fn normalize_datetimes(metadata: &mut MetaValue)
    ensures
        final(metadata)@ == normalized_datetimes(old(metadata)@),
        value_wf(old(metadata)@) ==> value_wf(final(metadata)@),
{
    proof {
        lemma_normalized_datetimes_wf(metadata@);
    }
    proof {
        lemma_value_view_parts(*metadata);
    }
    let replaced = match &metadata.data {
        MetaData::Table(t) => {
            let mut out: Vec<(String, MetaValue)> = Vec::new();
            let mut i: usize = 0;
            while i < t.len()
                invariant
                    i <= t@.len(),
                    out@.len() == i,
                    forall|j: int|
                        0 <= j < i ==> (#[trigger] out@[j]).0@ == t@[j].0@ && out@[j].1@
                            == datetime_as_string(t@[j].1@),
                decreases t.len() - i,
            {
                out.push((t[i].0.clone(), datetime_to_string(&t[i].1)));
                i += 1;
            }
            Some(out)
        },
        _ => None,
    };
    let ghost before = *metadata;
    match replaced {
        Some(out) => {
            metadata.data = MetaData::Table(out);
            proof {
                lemma_value_view_parts(*metadata);
                match before.data {
                    MetaData::Table(t) => {
                        assert(crate::schema::table_view(out@) =~= Seq::new(
                            crate::schema::table_view(t@).len(),
                            |i: int| (crate::schema::table_view(t@)[i].0, datetime_as_string(crate::schema::table_view(t@)[i].1)),
                        ));
                    },
                    _ => {},
                }
            }
        },
        None => {},
    }
}

/// Index of the first entry for `key`, from `i` on.
pub open spec fn key_index_from(t: Seq<(Seq<char>, ValueV)>, key: Seq<char>, i: int) -> Option<int>
    decreases t.len() - i,
{
    if !(0 <= i < t.len()) {
        None
    } else if t[i].0 == key {
        Some(i)
    } else {
        key_index_from(t, key, i + 1)
    }
}

proof fn lemma_key_index_from(t: Seq<(Seq<char>, ValueV)>, key: Seq<char>, i: int)
    ensures
        key_index_from(t, key, i) matches Some(j) ==> i <= j < t.len() && t[j].0 == key,
    decreases t.len() - i,
{
    if 0 <= i < t.len() && t[i].0 != key {
        lemma_key_index_from(t, key, i + 1);
    }
}

/// A string item trimmed (its text as read stays).
pub open spec fn trimmed_item(v: ValueV) -> ValueV {
    match v.data {
        DataV::String(s) => ValueV { data: DataV::String(trim_ws(s)), text: v.text },
        _ => v,
    }
}

/// Metadata with the strings of its `categories` array trimmed.
pub open spec fn normalized_categories(md: ValueV) -> ValueV {
    match md.data {
        DataV::Table(t) => match key_index_from(t, "categories"@, 0) {
            Some(i) => match t[i].1.data {
                DataV::Array(items) => ValueV {
                    data: DataV::Table(
                        t.update(
                            i,
                            (
                                t[i].0,
                                ValueV {
                                    data: DataV::Array(Seq::new(items.len(), |j: int| trimmed_item(items[j]))),
                                    text: t[i].1.text,
                                },
                            ),
                        ),
                    ),
                    text: md.text,
                },
                _ => md,
            },
            None => md,
        },
        _ => md,
    }
}

fn trim_item(v: &MetaValue) -> (r: MetaValue)
    ensures
        r@ == trimmed_item(v@),
{
    match &v.data {
        MetaData::String(s) => {
            let t = trimmed_chars(s.as_str());
            let r = MetaValue { data: MetaData::String(string_from_chars(&t, 0, t.len())), text: v.text.clone() };
            proof {
                lemma_value_view_parts(*v);
                lemma_value_view_parts(r);
                assert(t@.subrange(0, t@.len() as int) =~= t@);
            }
            r
        },
        _ => v.clone(),
    }
}

fn entry_index(t: &Vec<(String, MetaValue)>, key: &str) -> (r: Option<usize>)
    ensures
        match key_index_from(crate::schema::table_view(t@), key@, 0) {
            Some(i) => r == Some(i as usize),
            None => r is None,
        },
{
    let ghost tv = crate::schema::table_view(t@);
    let mut i: usize = 0;
    while i < t.len()
        invariant
            i <= t@.len(),
            tv == crate::schema::table_view(t@),
            key_index_from(tv, key@, 0) == key_index_from(tv, key@, i as int),
        decreases t.len() - i,
    {
        if str_equal(t[i].0.as_str(), key) {
            return Some(i);
        }
        i += 1;
    }
    None
}

/// Trims the strings of the metadata's `categories` array.
pub fn normalize_categories(metadata: &mut MetaValue)
    ensures
        final(metadata)@ == normalized_categories(old(metadata)@),
        value_wf(old(metadata)@) ==> value_wf(final(metadata)@),
{
    proof {
        lemma_normalized_categories_wf(metadata@);
    }
    proof {
        lemma_value_view_parts(*metadata);
    }
    let ghost before = *metadata;
    let replaced: Option<Vec<(String, MetaValue)>> = match &metadata.data {
        MetaData::Table(t) => match entry_index(t, "categories") {
            Some(k) => {
                proof {
                    lemma_key_index_from(crate::schema::table_view(t@), "categories"@, 0);
                    lemma_value_view_parts(t@[k as int].1);
                }
                match &t[k].1.data {
                    MetaData::Array(items) => {
                        let mut new_items: Vec<MetaValue> = Vec::new();
                        let mut j: usize = 0;
                        while j < items.len()
                            invariant
                                j <= items@.len(),
                                new_items@.len() == j,
                                forall|m: int|
                                    0 <= m < j ==> (#[trigger] new_items@[m])@ == trimmed_item(items@[m]@),
                            decreases items.len() - j,
                        {
                            new_items.push(trim_item(&items[j]));
                            j += 1;
                        }
                        let arr = MetaValue { data: MetaData::Array(new_items), text: t[k].1.text.clone() };
                        proof {
                            lemma_value_view_parts(arr);
                            assert(crate::schema::items_view(new_items@) =~= Seq::new(
                                crate::schema::items_view(items@).len(),
                                |m: int| trimmed_item(crate::schema::items_view(items@)[m]),
                            ));
                        }
                        let mut out = crate::schema::clone_table(t);
                        out.set(k, (t[k].0.clone(), arr));
                        Some(out)
                    },
                    _ => None,
                }
            },
            None => None,
        },
        _ => None,
    };
    match replaced {
        Some(out) => {
            metadata.data = MetaData::Table(out);
            proof {
                lemma_value_view_parts(*metadata);
                match before.data {
                    MetaData::Table(t) => {
                        let tv = crate::schema::table_view(t@);
                        lemma_key_index_from(tv, "categories"@, 0);
                        let i = key_index_from(tv, "categories"@, 0)->0;
                        match tv[i].1.data {
                            DataV::Array(items) => {
                                assert(crate::schema::table_view(out@) =~= tv.update(
                                    i,
                                    (
                                        tv[i].0,
                                        ValueV {
                                            data: DataV::Array(Seq::new(items.len(), |j: int| trimmed_item(items[j]))),
                                            text: tv[i].1.text,
                                        },
                                    ),
                                ));
                            },
                            _ => {},
                        }
                    },
                    _ => {},
                }
            }
        },
        None => {},
    }
}

/// The TOML rendering of a string value (quoted, with escapes).
pub uninterp spec fn toml_string_repr(s: Seq<char>) -> Seq<char>;

/// `toml::Value::String(s).to_string()`. Claimed: the result depends on
/// `s` alone.
#[verifier::external_body]
fn toml_string_text(s: &str) -> (r: String)
    ensures
        r@ == toml_string_repr(s@),
{
    toml::Value::String(s.to_string()).to_string()
}

/// A string metadata value.
pub open spec fn string_value_spec(s: Seq<char>) -> ValueV {
    ValueV { data: DataV::String(s), text: toml_string_repr(s) }
}

pub fn string_value(s: &str) -> (r: MetaValue)
    ensures
        r@ == string_value_spec(s@),
{
    let r = MetaValue { data: MetaData::String(String::from_str(s)), text: toml_string_text(s) };
    proof {
        lemma_value_view_parts(r);
    }
    r
}

/// Entries with `key` set to `v`: the first entry for `key` replaced, or a
/// new entry at the end.
pub open spec fn with_entry(t: Seq<(Seq<char>, ValueV)>, key: Seq<char>, v: ValueV) -> Seq<(Seq<char>, ValueV)> {
    match key_index_from(t, key, 0) {
        Some(i) => t.update(i, (key, v)),
        None => t.push((key, v)),
    }
}

/// Metadata with field `key` set to `v`, when it is a table.
pub open spec fn inserted(md: ValueV, key: Seq<char>, v: ValueV) -> ValueV {
    match md.data {
        DataV::Table(t) => ValueV { data: DataV::Table(with_entry(t, key, v)), text: md.text },
        _ => md,
    }
}

/// Sets field `key` of table metadata to `v`.
pub fn insert_field(metadata: &mut MetaValue, key: &str, v: MetaValue)
    ensures
        final(metadata)@ == inserted(old(metadata)@, key@, v@),
        value_wf(old(metadata)@) && value_wf(v@) ==> value_wf(final(metadata)@),
{
    proof {
        lemma_inserted_wf(metadata@, key@, v@);
    }
    proof {
        lemma_value_view_parts(*metadata);
    }
    let ghost before = *metadata;
    let ghost vv = v@;
    let replaced: Option<Vec<(String, MetaValue)>> = match &metadata.data {
        MetaData::Table(t) => {
            let mut out = crate::schema::clone_table(t);
            match entry_index(t, key) {
                Some(k) => {
                    proof {
                        lemma_key_index_from(crate::schema::table_view(t@), key@, 0);
                    }
                    out.set(k, (String::from_str(key), v));
                },
                None => {
                    out.push((String::from_str(key), v));
                },
            }
            Some(out)
        },
        _ => None,
    };
    match replaced {
        Some(out) => {
            metadata.data = MetaData::Table(out);
            proof {
                lemma_value_view_parts(*metadata);
                match before.data {
                    MetaData::Table(t) => {
                        let tv = crate::schema::table_view(t@);
                        lemma_key_index_from(tv, key@, 0);
                        assert(crate::schema::table_view(out@) =~= with_entry(tv, key@, vv));
                    },
                    _ => {},
                }
            }
        },
        None => {},
    }
}

/// Turning date-times into strings keeps metadata well-formed.
pub proof fn lemma_normalized_datetimes_wf(md: ValueV)
    ensures
        value_wf(md) ==> value_wf(normalized_datetimes(md)),
{
    if value_wf(md) {
        match md.data {
            DataV::Table(t) => {
                let u = Seq::new(t.len(), |i: int| (t[i].0, datetime_as_string(t[i].1)));
                assert(normalized_datetimes(md).data == DataV::Table(u));
                assert forall|i: int| 0 <= i < u.len() implies value_wf(#[trigger] u[i].1) by {
                    assert(value_wf(t[i].1));
                }
                assert forall|i: int, j: int| 0 <= i < j < u.len() implies u[i].0 != u[j].0 by {
                    assert(t[i].0 != t[j].0);
                }
                assert(keys_distinct(u));
            },
            _ => {},
        }
    }
}

/// Trimming the categories keeps metadata well-formed.
pub proof fn lemma_normalized_categories_wf(md: ValueV)
    ensures
        value_wf(md) ==> value_wf(normalized_categories(md)),
{
    if value_wf(md) {
        match md.data {
            DataV::Table(t) => {
                lemma_key_index_from(t, "categories"@, 0);
                match key_index_from(t, "categories"@, 0) {
                    Some(i) => match t[i].1.data {
                        DataV::Array(items) => {
                            let ts = Seq::new(items.len(), |j: int| trimmed_item(items[j]));
                            let arr = ValueV { data: DataV::Array(ts), text: t[i].1.text };
                            assert(value_wf(t[i].1));
                            assert forall|j: int| 0 <= j < ts.len() implies value_wf(#[trigger] ts[j]) by {
                                assert(value_wf(items[j]));
                            }
                            assert(value_wf(arr));
                            let u = t.update(i, (t[i].0, arr));
                            assert(normalized_categories(md).data == DataV::Table(u));
                            assert forall|k: int| 0 <= k < u.len() implies value_wf(#[trigger] u[k].1) by {
                                if k != i {
                                    assert(value_wf(t[k].1));
                                }
                            }
                            assert forall|a: int, b: int| 0 <= a < b < u.len() implies u[a].0 != u[b].0 by {
                                assert(t[a].0 != t[b].0);
                            }
                            assert(keys_distinct(u));
                        },
                        _ => {},
                    },
                    None => {},
                }
            },
            _ => {},
        }
    }
}

/// Setting a field of well-formed metadata to a well-formed value keeps it
/// well-formed: the key replaces its entry, or is new.
pub proof fn lemma_inserted_wf(md: ValueV, key: Seq<char>, v: ValueV)
    ensures
        value_wf(md) && value_wf(v) ==> value_wf(inserted(md, key, v)),
{
    if value_wf(md) && value_wf(v) {
        match md.data {
            DataV::Table(t) => {
                lemma_key_index_from(t, key, 0);
                let u = with_entry(t, key, v);
                assert(inserted(md, key, v).data == DataV::Table(u));
                match key_index_from(t, key, 0) {
                    Some(p) => {
                        assert(u == t.update(p, (key, v)));
                        assert forall|k: int| 0 <= k < u.len() implies value_wf(#[trigger] u[k].1) by {
                            if k != p {
                                assert(value_wf(t[k].1));
                            }
                        }
                        assert forall|a: int, b: int| 0 <= a < b < u.len() implies u[a].0 != u[b].0 by {
                            assert(t[a].0 != t[b].0);
                        }
                    },
                    None => {
                        lemma_key_absent(t, key, 0);
                        assert(u == t.push((key, v)));
                        assert forall|k: int| 0 <= k < u.len() implies value_wf(#[trigger] u[k].1) by {
                            if k < t.len() {
                                assert(value_wf(t[k].1));
                            }
                        }
                        assert forall|a: int, b: int| 0 <= a < b < u.len() implies u[a].0 != u[b].0 by {
                            if b < t.len() {
                                assert(t[a].0 != t[b].0);
                            } else {
                                assert(t[a].0 != key);
                            }
                        }
                    },
                }
                assert(keys_distinct(u));
            },
            _ => {},
        }
    }
}

proof fn lemma_key_absent(t: Seq<(Seq<char>, ValueV)>, key: Seq<char>, i: int)
    requires
        0 <= i,
        key_index_from(t, key, i) is None,
    ensures
        forall|k: int| i <= k < t.len() ==> (#[trigger] t[k]).0 != key,
    decreases t.len() - i,
{
    if i < t.len() {
        lemma_key_absent(t, key, i + 1);
    }
}

proof fn lemma_lookup_index(t: Seq<(Seq<char>, ValueV)>, key: Seq<char>, i: int)
    requires
        0 <= i <= t.len(),
    ensures
        lookup(t.skip(i), key) == match key_index_from(t, key, i) {
            Some(j) => Some(t[j].1),
            None => None::<ValueV>,
        },
    decreases t.len() - i,
{
    if i < t.len() {
        assert(t.skip(i).drop_first() =~= t.skip(i + 1));
        lemma_lookup_index(t, key, i + 1);
    }
}

proof fn lemma_index_with_entry(t: Seq<(Seq<char>, ValueV)>, key: Seq<char>, v: ValueV, i: int)
    requires
        0 <= i <= t.len(),
        key_index_from(t, key, 0) matches Some(p) ==> i <= p,
        key_index_from(t, key, 0) is None ==> key_index_from(t, key, i) is None,
        key_index_from(t, key, 0) matches Some(p) ==> key_index_from(t, key, i) == Some(p),
    ensures
        key_index_from(with_entry(t, key, v), key, i) == match key_index_from(t, key, 0) {
            Some(p) => Some(p),
            None => Some(t.len() as int),
        },
    decreases t.len() - i,
{
    lemma_key_index_from(t, key, 0);
    lemma_key_index_from(t, key, i);
    if i < t.len() {
        if t[i].0 != key {
            lemma_index_with_entry(t, key, v, i + 1);
        }
    }
}

proof fn lemma_other_index_with_entry(t: Seq<(Seq<char>, ValueV)>, key: Seq<char>, v: ValueV, k2: Seq<char>, i: int)
    requires
        0 <= i <= t.len(),
        k2 != key,
    ensures
        key_index_from(with_entry(t, key, v), k2, i) == key_index_from(t, k2, i),
    decreases t.len() - i,
{
    lemma_key_index_from(t, key, 0);
    let w = with_entry(t, key, v);
    if i < t.len() {
        lemma_other_index_with_entry(t, key, v, k2, i + 1);
        assert(w[i].0 == k2 <==> t[i].0 == k2);
    } else {
        if w.len() > t.len() {
            assert(w[i].0 == key);
            assert(key_index_from(w, k2, i + 1) is None);
        }
    }
}

/// Setting a field and reading it back: the field holds the value set, and
/// every other field is as it was (for table metadata).
pub proof fn lemma_inserted_field(md: ValueV, key: Seq<char>, v: ValueV, other: Seq<char>)
    requires
        md.data is Table,
    ensures
        field_of(inserted(md, key, v), key) == Some(v),
        other != key ==> field_of(inserted(md, key, v), other) == field_of(md, other),
{
    let t = md.data->Table_0;
    let w = with_entry(t, key, v);
    lemma_key_index_from(t, key, 0);
    lemma_index_with_entry(t, key, v, 0);
    if other != key {
        lemma_other_index_with_entry(t, key, v, other, 0);
    }
    lemma_lookup_index(w, key, 0);
    lemma_lookup_index(w, other, 0);
    lemma_lookup_index(t, other, 0);
    assert(w.skip(0) =~= w);
    assert(t.skip(0) =~= t);
    lemma_key_index_from(t, other, 0);
    lemma_key_index_from(w, other, 0);
}

/// What loading a page adds to its converted metadata: date-times as
/// strings, trimmed categories, then `raw` (the page's HTML), `permalink`
/// and `rel_path`.
pub open spec fn loaded_spec(md: ValueV, html: Seq<char>, rel: Seq<char>, routes_url: Seq<char>) -> ValueV {
    inserted(
        inserted(
            inserted(
                normalized_categories(normalized_datetimes(md)),
                "raw"@,
                string_value_spec(html),
            ),
            "permalink"@,
            string_value_spec(crate::site::permalink_spec(rel, routes_url)),
        ),
        "rel_path"@,
        string_value_spec(rel),
    )
}

/// Completes the converted metadata of a loaded page.
pub fn finish_loaded_metadata(metadata: &mut MetaValue, html: &str, rel_path: &str, routes_url: &str)
    ensures
        final(metadata)@ == loaded_spec(old(metadata)@, html@, rel_path@, routes_url@),
{
    let permalink = crate::site::compute_permalink(rel_path, routes_url);
    normalize_datetimes(metadata);
    normalize_categories(metadata);
    insert_field(metadata, "raw", string_value(html));
    insert_field(metadata, "permalink", string_value(permalink.as_str()));
    insert_field(metadata, "rel_path", string_value(rel_path));
}

/// What extracting a page's metadata adds: date-times as strings and the
/// `permalink`.
pub open spec fn extracted_spec(md: ValueV, rel: Seq<char>, routes_url: Seq<char>) -> ValueV {
    inserted(
        normalized_datetimes(md),
        "permalink"@,
        string_value_spec(crate::site::permalink_spec(rel, routes_url)),
    )
}

/// Completes the converted metadata of a page read for its metadata only.
pub fn finish_extracted_metadata(metadata: &mut MetaValue, rel_path: &str, routes_url: &str)
    ensures
        final(metadata)@ == extracted_spec(old(metadata)@, rel_path@, routes_url@),
{
    let permalink = crate::site::compute_permalink(rel_path, routes_url);
    normalize_datetimes(metadata);
    insert_field(metadata, "permalink", string_value(permalink.as_str()));
}

// ---------------------------------------------------------------------
// Sitemap
// ---------------------------------------------------------------------

/// The permalink and date of a post for the sitemap: its `permalink`
/// string and its `updated` field, or `created` where it has no `updated`,
/// when that is a string.
pub open spec fn post_date_spec(post: ValueV) -> Option<(Seq<char>, Seq<char>)> {
    match str_field(post, "permalink"@) {
        Some(p) => {
            let d = match field_of(post, "updated"@) {
                Some(u) => Some(u),
                None => field_of(post, "created"@),
            };
            match d {
                Some(dv) => match dv.data {
                    DataV::String(ds) => Some((p, ds)),
                    _ => None,
                },
                None => None,
            }
        },
        None => None,
    }
}

/// The permalink and date of a post for the sitemap.
pub fn post_date(post: &MetaValue) -> (r: Option<(String, String)>)
    ensures
        match r {
            Some((p, d)) => post_date_spec(post@) == Some((p@, d@)),
            None => post_date_spec(post@) is None,
        },
{
    let p = match str_field_exec(post, "permalink") {
        Some(p) => p,
        None => return None,
    };
    let d = match field(post, "updated") {
        Some(u) => Some(u),
        None => field(post, "created"),
    };
    match d {
        Some(dv) => match &dv.data {
            MetaData::String(ds) => Some((p, ds.clone())),
            _ => None,
        },
        None => None,
    }
}

/// The date of permalink `p` among the first `n` posts: that of the last
/// post with this permalink and a date.
pub open spec fn lastmod_spec(posts: Seq<MetaValue>, p: Seq<char>, n: int) -> Option<Seq<char>>
    decreases n,
{
    if n <= 0 {
        None
    } else {
        match post_date_spec(posts[n - 1]@) {
            Some(pd) => if pd.0 == p {
                Some(pd.1)
            } else {
                lastmod_spec(posts, p, n - 1)
            },
            None => lastmod_spec(posts, p, n - 1),
        }
    }
}

/// An entry of the sitemap.
pub struct SitemapUrl {
    pub loc: String,
    pub lastmod: Option<String>,
}

pub open spec fn url_view(u: SitemapUrl) -> (Seq<char>, Option<Seq<char>>) {
    (u.loc@, opt_str_view(u.lastmod))
}

pub open spec fn urls_view(v: Seq<SitemapUrl>) -> Seq<(Seq<char>, Option<Seq<char>>)> {
    Seq::new(v.len(), |i: int| url_view(v[i]))
}

/// The sitemap's entries: the root; each built page's permalink with its
/// date; when there are posts, the categories index and each category's
/// page; each feed.
pub open spec fn sitemap_spec(
    permalinks: Seq<Seq<char>>,
    posts: Seq<MetaValue>,
    categories: Seq<Seq<char>>,
    dir: Seq<char>,
    feeds: Seq<Seq<char>>,
) -> Seq<(Seq<char>, Option<Seq<char>>)> {
    seq![("/"@, None::<Seq<char>>)] + permalinks.map_values(
        |p: Seq<char>| (p, lastmod_spec(posts, p, posts.len() as int)),
    ) + (if posts.len() > 0 {
        seq![("/"@ + dir + "/"@, None::<Seq<char>>)] + categories.map_values(
            |c: Seq<char>| ("/"@ + dir + "/"@ + c + "/"@, None::<Seq<char>>),
        )
    } else {
        seq![]
    }) + feeds.map_values(|f: Seq<char>| ("/"@ + f, None::<Seq<char>>))
}

proof fn lemma_urls_push(v: Seq<SitemapUrl>, x: SitemapUrl)
    ensures
        urls_view(v.push(x)) == urls_view(v).push(url_view(x)),
{
    assert(urls_view(v.push(x)) =~= urls_view(v).push(url_view(x)));
}

fn lastmod(dates: &Vec<Option<(String, String)>>, p: &str, Ghost(posts): Ghost<Seq<MetaValue>>) -> (r: Option<String>)
    requires
        dates@.len() == posts.len(),
        forall|i: int|
            0 <= i < dates@.len() ==> match #[trigger] dates@[i] {
                Some((a, b)) => post_date_spec(posts[i]@) == Some((a@, b@)),
                None => post_date_spec(posts[i]@) is None,
            },
    ensures
        opt_str_view(r) == lastmod_spec(posts, p@, posts.len() as int),
{
    let mut i: usize = dates.len();
    while i > 0
        invariant
            i <= dates@.len(),
            dates@.len() == posts.len(),
            forall|k: int|
                0 <= k < dates@.len() ==> match #[trigger] dates@[k] {
                    Some((a, b)) => post_date_spec(posts[k]@) == Some((a@, b@)),
                    None => post_date_spec(posts[k]@) is None,
                },
            lastmod_spec(posts, p@, posts.len() as int) == lastmod_spec(posts, p@, i as int),
        decreases i,
    {
        match &dates[i - 1] {
            Some((a, b)) => {
                if str_equal(a.as_str(), p) {
                    return Some(b.clone());
                }
            },
            None => {},
        }
        i -= 1;
    }
    None
}

/// The sitemap of a build: `permalinks` of the built pages, `categories`
/// those of the posts, `feeds` the feed files written.
pub fn sitemap_urls(
    permalinks: &Vec<String>,
    posts: &Vec<MetaValue>,
    categories: &Vec<String>,
    categories_dir: &str,
    feeds: &Vec<String>,
) -> (r: Vec<SitemapUrl>)
    ensures
        urls_view(r@) == sitemap_spec(
            strings_view(permalinks@),
            posts@,
            strings_view(categories@),
            categories_dir@,
            strings_view(feeds@),
        ),
{
    let mut dates: Vec<Option<(String, String)>> = Vec::new();
    let mut q: usize = 0;
    while q < posts.len()
        invariant
            q <= posts@.len(),
            dates@.len() == q,
            forall|i: int|
                0 <= i < q ==> match #[trigger] dates@[i] {
                    Some((a, b)) => post_date_spec(posts@[i]@) == Some((a@, b@)),
                    None => post_date_spec(posts@[i]@) is None,
                },
        decreases posts.len() - q,
    {
        dates.push(post_date(&posts[q]));
        q += 1;
    }
    let ghost ps = strings_view(permalinks@);
    let ghost cs = strings_view(categories@);
    let ghost fs = strings_view(feeds@);
    let ghost head = seq![("/"@, None::<Seq<char>>)];
    let ghost pages = ps.map_values(|p: Seq<char>| (p, lastmod_spec(posts@, p, posts@.len() as int)));
    let mut out: Vec<SitemapUrl> = Vec::new();
    out.push(SitemapUrl { loc: String::from_str("/"), lastmod: None });
    assert(urls_view(out@) =~= head);
    let mut i: usize = 0;
    while i < permalinks.len()
        invariant
            i <= permalinks@.len(),
            ps == strings_view(permalinks@),
            pages == ps.map_values(|p: Seq<char>| (p, lastmod_spec(posts@, p, posts@.len() as int))),
            dates@.len() == posts@.len(),
            forall|k: int|
                0 <= k < dates@.len() ==> match #[trigger] dates@[k] {
                    Some((a, b)) => post_date_spec(posts@[k]@) == Some((a@, b@)),
                    None => post_date_spec(posts@[k]@) is None,
                },
            urls_view(out@) == head + pages.take(i as int),
        decreases permalinks.len() - i,
    {
        let lm = lastmod(&dates, permalinks[i].as_str(), Ghost(posts@));
        let u = SitemapUrl { loc: permalinks[i].clone(), lastmod: lm };
        proof {
            lemma_urls_push(out@, u);
            assert(pages[i as int] == url_view(u));
        }
        out.push(u);
        assert(urls_view(out@) =~= head + pages.take(i + 1));
        i += 1;
    }
    assert(pages.take(permalinks@.len() as int) =~= pages);
    let ghost before = urls_view(out@);
    let ghost cats_part = if posts@.len() > 0 {
        seq![("/"@ + categories_dir@ + "/"@, None::<Seq<char>>)] + cs.map_values(
            |c: Seq<char>| ("/"@ + categories_dir@ + "/"@ + c + "/"@, None::<Seq<char>>),
        )
    } else {
        seq![]
    };
    if posts.len() > 0 {
        let ghost index = seq![("/"@ + categories_dir@ + "/"@, None::<Seq<char>>)];
        let ghost each = cs.map_values(
            |c: Seq<char>| ("/"@ + categories_dir@ + "/"@ + c + "/"@, None::<Seq<char>>),
        );
        out.push(SitemapUrl { loc: crate::text::concat3("/", categories_dir, "/"), lastmod: None });
        assert(urls_view(out@) =~= before + index);
        let mut c: usize = 0;
        while c < categories.len()
            invariant
                c <= categories@.len(),
                cs == strings_view(categories@),
                each == cs.map_values(
                    |c: Seq<char>| ("/"@ + categories_dir@ + "/"@ + c + "/"@, None::<Seq<char>>),
                ),
                urls_view(out@) == before + index + each.take(c as int),
            decreases categories.len() - c,
        {
            let mut loc = crate::text::concat3("/", categories_dir, "/");
            loc.append(categories[c].as_str());
            loc.append("/");
            let u = SitemapUrl { loc, lastmod: None };
            proof {
                lemma_urls_push(out@, u);
                assert(each[c as int] == url_view(u));
            }
            out.push(u);
            assert(urls_view(out@) =~= before + index + each.take(c + 1));
            c += 1;
        }
        assert(each.take(categories@.len() as int) =~= each);
        assert(urls_view(out@) =~= before + cats_part);
    } else {
        assert(urls_view(out@) =~= before + cats_part);
    }
    let ghost mid = urls_view(out@);
    let ghost feeds_part = fs.map_values(|f: Seq<char>| ("/"@ + f, None::<Seq<char>>));
    let mut k: usize = 0;
    while k < feeds.len()
        invariant
            k <= feeds@.len(),
            fs == strings_view(feeds@),
            feeds_part == fs.map_values(|f: Seq<char>| ("/"@ + f, None::<Seq<char>>)),
            urls_view(out@) == mid + feeds_part.take(k as int),
        decreases feeds.len() - k,
    {
        let u = SitemapUrl { loc: crate::text::concat2("/", feeds[k].as_str()), lastmod: None };
        proof {
            lemma_urls_push(out@, u);
            assert(feeds_part[k as int] == url_view(u));
        }
        out.push(u);
        assert(urls_view(out@) =~= mid + feeds_part.take(k + 1));
        k += 1;
    }
    assert(feeds_part.take(feeds@.len() as int) =~= feeds_part);
    out
}


// ---------------------------------------------------------------------
// Backlink sources
// ---------------------------------------------------------------------

/// Metadata that marks its page a draft (`draft = true`).
pub open spec fn is_draft(md: ValueV) -> bool {
    field_of(md, "draft"@) matches Some(v) && v.data matches DataV::Boolean(b) && b
}

pub open spec fn opt_meta_view(m: Option<&MetaValue>) -> Option<ValueV> {
    match m {
        Some(x) => Some(x@),
        None => None,
    }
}

/// Whether content file `rel` (relative to the content directory, with
/// metadata `meta` when it could be read) links as a backlink source: a
/// `.norg` file, outside the categories directory, and no draft (drafts are
/// not rendered, so they must not show up as sources).
pub open spec fn backlink_source_spec(rel: Seq<char>, categories_dir: Seq<char>, meta: Option<ValueV>) -> bool {
    &&& path_extension(rel) == Some("norg"@)
    &&& !path_starts_with(rel, categories_dir)
    &&& !(meta matches Some(m) && is_draft(m))
}

/// Title of a backlink source: its metadata's `title` string, else its
/// path without extension.
pub open spec fn backlink_title_spec(rel: Seq<char>, meta: Option<ValueV>) -> Seq<char> {
    match meta {
        Some(m) => match str_field(m, "title"@) {
            Some(t) => t,
            None => path_with_extension(rel, seq![]),
        },
        None => path_with_extension(rel, seq![]),
    }
}

/// The entry of content file `rel` in the backlink graph, holding the
/// routes its text links to: `None` when it is no backlink source (see
/// [`backlink_source_spec`]); else its canonical route, its title (see
/// [`backlink_title_spec`]) and `links`.
pub fn backlink_page(rel: &str, categories_dir: &str, meta: Option<&MetaValue>, links: Vec<String>) -> (r: Option<PageLinks>)
    ensures
        match r {
            Some(p) => {
                &&& backlink_source_spec(rel@, categories_dir@, opt_meta_view(meta))
                &&& p.route@ == canonical_route_spec(path_with_extension(rel@, seq![]))
                &&& p.title@ == backlink_title_spec(rel@, opt_meta_view(meta))
                &&& p.links@ == links@
            },
            None => !backlink_source_spec(rel@, categories_dir@, opt_meta_view(meta)),
        },
{
    proof {
        reveal_strlit("norg");
        reveal_strlit("");
    }
    let is_norg = match extension(rel) {
        Some(e) => str_equal(e.as_str(), "norg"),
        None => false,
    };
    if !is_norg || starts_with(rel, categories_dir) {
        return None;
    }
    let draft = match meta {
        Some(m) => draft_or_false(m),
        None => false,
    };
    if draft {
        return None;
    }
    let rel_no_ext = with_extension(rel, "");
    assert(""@ =~= Seq::<char>::empty());
    assert(rel_no_ext@ == path_with_extension(rel@, seq![]));
    let title = match meta {
        Some(m) => match str_field_exec(m, "title") {
            Some(t) => t,
            None => rel_no_ext.clone(),
        },
        None => rel_no_ext.clone(),
    };
    Some(PageLinks { route: route_for(rel_no_ext.as_str()), title, links })
}


// ---------------------------------------------------------------------
// Collections
// ---------------------------------------------------------------------

/// The `rel_path` string of a post, if it has one.
pub open spec fn rel_path_of(post: ValueV) -> Option<Seq<char>> {
    str_field(post, "rel_path"@)
}

/// Indices of the posts among the first `n` that belong to collection
/// `dir` (see [`crate::site::in_collection`]), in order.
pub open spec fn posts_members(posts: Seq<ValueV>, dir: Seq<char>, n: int) -> Seq<int>
    decreases n,
{
    if n <= 0 {
        seq![]
    } else {
        posts_members(posts, dir, n - 1) + match rel_path_of(posts[n - 1]) {
            Some(p) => if crate::site::in_collection(p, dir) {
                seq![n - 1]
            } else {
                seq![]
            },
            None => seq![],
        }
    }
}

pub open spec fn values_view(v: Seq<MetaValue>) -> Seq<ValueV> {
    Seq::new(v.len(), |i: int| v[i]@)
}

/// The `rel_path` of each post.
pub fn post_rel_paths(posts: &Vec<MetaValue>) -> (r: Vec<Option<String>>)
    ensures
        r@.len() == posts@.len(),
        forall|i: int| 0 <= i < r@.len() ==> opt_str_view(#[trigger] r@[i]) == rel_path_of(posts@[i]@),
{
    let mut out: Vec<Option<String>> = Vec::new();
    let mut i: usize = 0;
    while i < posts.len()
        invariant
            i <= posts@.len(),
            out@.len() == i,
            forall|k: int| 0 <= k < i ==> opt_str_view(#[trigger] out@[k]) == rel_path_of(posts@[k]@),
        decreases posts.len() - i,
    {
        out.push(str_field_exec(&posts[i], "rel_path"));
        i += 1;
    }
    out
}

proof fn lemma_members_by_paths(paths: Seq<Option<String>>, posts: Seq<ValueV>, dir: Seq<char>, n: int)
    requires
        paths.len() == posts.len(),
        n <= paths.len(),
        forall|i: int| 0 <= i < paths.len() ==> opt_str_view(#[trigger] paths[i]) == rel_path_of(posts[i]),
    ensures
        crate::site::members(paths, dir, n) == posts_members(posts, dir, n),
    decreases n,
{
    if n > 0 {
        lemma_members_by_paths(paths, posts, dir, n - 1);
        assert(opt_str_view(paths[n - 1]) == rel_path_of(posts[n - 1]));
    }
}

/// For each collection (name, directory), the indices of the posts in it,
/// in order: the posts whose `rel_path` is the directory or lies under it.
pub fn precompute_collection_subsets(posts: &Vec<MetaValue>, collections: &Vec<(String, String)>) -> (r:
    Vec<(String, Vec<usize>)>)
    ensures
        r@.len() == collections@.len(),
        forall|c: int|
            0 <= c < r@.len() ==> (#[trigger] r@[c]).0@ == collections@[c].0@ && crate::toc::usizes(
                r@[c].1@,
            ) == posts_members(values_view(posts@), collections@[c].1@, posts@.len() as int),
{
    let paths = post_rel_paths(posts);
    let r = crate::site::collection_members(&paths, collections);
    proof {
        assert forall|c: int| 0 <= c < r@.len() implies crate::site::members(
            paths@,
            collections@[c].1@,
            paths@.len() as int,
        ) == posts_members(values_view(posts@), collections@[c].1@, posts@.len() as int) by {
            lemma_members_by_paths(paths@, values_view(posts@), collections@[c].1@, paths@.len() as int);
        }
    }
    r
}

} // verus!
