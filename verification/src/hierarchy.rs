//! Content schemas arranged by content path: which schemas apply to a
//! document, and how they combine into one set of requirements.
use vstd::prelude::*;

use crate::schema::{
    clone_strings, def_wf, defs_view, defs_wf, entries_wf, lookup, strings_view, DefV, FieldDefinition, RuleV,
    ValidationRule,
};
use crate::text::{chars_of, join_with, split_char, split_chars, str_equal, string_from_chars};

verus! {

/// A schema node: its own requirements, and child schemas by path
/// component (`*` matches any one component, `**` any remaining ones).
/// Keys of `fields` and of `paths` are distinct.
pub struct ContentSchema {
    pub required: Vec<String>,
    pub fields: Vec<(String, FieldDefinition)>,
    pub rules: Vec<ValidationRule>,
    pub paths: Vec<(String, ContentSchema)>,
}

/// The child schemas of a node, by key.
pub open spec fn children(p: Seq<(String, ContentSchema)>) -> Seq<(Seq<char>, ContentSchema)> {
    Seq::new(p.len(), |i: int| (p[i].0@, p[i].1))
}

/// A well-formed rule: the paths of its condition are distinct, its
/// values well-formed, and so are the field definitions it adds.
pub open spec fn rule_wf(r: RuleV) -> bool {
    entries_wf(r.condition) && match r.fields {
        Some(f) => defs_wf(f),
        None => true,
    }
}

impl ContentSchema {
    /// A well-formed schema node, as one read from TOML tables is: field
    /// names distinct, child keys distinct, definitions and rules
    /// well-formed, and so every child schema below it.
    pub open spec fn wf(self) -> bool
        decreases self,
    {
        &&& defs_wf(defs_view(self.fields@))
        &&& forall|i: int| 0 <= i < self.rules@.len() ==> rule_wf(#[trigger] self.rules@[i]@)
        &&& keys_distinct(children(self.paths@))
        &&& forall|i: int| 0 <= i < self.paths@.len() ==> (#[trigger] self.paths@[i]).1.wf()
    }
}

/// The child that path component `comp` leads to, and whether the descent
/// goes on below it: the exact key first, then `*`, then `**` (where it
/// stops).
pub open spec fn child_step(s: ContentSchema, comp: Seq<char>) -> Option<(ContentSchema, bool)> {
    match lookup(children(s.paths@), comp) {
        Some(c) => Some((c, true)),
        None => match lookup(children(s.paths@), "*"@) {
            Some(c) => Some((c, true)),
            None => match lookup(children(s.paths@), "**"@) {
                Some(c) => Some((c, false)),
                None => None,
            },
        },
    }
}

/// Schemas entered below `cur` for path components `i..`; empty
/// components are skipped, and the descent stops at the first component
/// with no child.
pub open spec fn resolve_walk(cur: ContentSchema, parts: Seq<Seq<char>>, i: int) -> Seq<
    ContentSchema,
>
    decreases parts.len() - i,
{
    if !(0 <= i < parts.len()) {
        seq![]
    } else if parts[i].len() == 0 {
        resolve_walk(cur, parts, i + 1)
    } else {
        match child_step(cur, parts[i]) {
            Some((c, true)) => seq![c] + resolve_walk(c, parts, i + 1),
            Some((c, false)) => seq![c],
            None => seq![],
        }
    }
}

/// The schemas that apply to `path`, from the root to the most specific.
pub open spec fn resolve_spec(root: ContentSchema, path: Seq<char>) -> Seq<ContentSchema> {
    seq![root] + resolve_walk(root, split_char(path, '/'), 0)
}

proof fn lemma_lookup_found<V>(t: Seq<(Seq<char>, V)>, k: Seq<char>)
    ensures
        lookup(t, k) matches Some(v) ==> exists|j: int| 0 <= j < t.len() && t[j].1 == v,
    decreases t.len(),
{
    if t.len() > 0 && t[0].0 != k {
        lemma_lookup_found(t.drop_first(), k);
        if lookup(t, k) is Some {
            let j = choose|j: int| 0 <= j < t.drop_first().len() && t.drop_first()[j].1 == lookup(t, k)->0;
            assert(t[j + 1] == t.drop_first()[j]);
        }
    } else if t.len() > 0 {
        assert(t[0].1 == lookup(t, k)->0);
    }
}

proof fn lemma_child_step_wf(cur: ContentSchema, comp: Seq<char>)
    requires
        cur.wf(),
    ensures
        child_step(cur, comp) matches Some((c, _)) ==> c.wf(),
{
    let ch = children(cur.paths@);
    lemma_lookup_found(ch, comp);
    lemma_lookup_found(ch, "*"@);
    lemma_lookup_found(ch, "**"@);
    match child_step(cur, comp) {
        Some((c, _)) => {
            let j = choose|j: int| 0 <= j < ch.len() && ch[j].1 == c;
            assert(cur.paths@[j].1 == c);
        },
        None => {},
    }
}

proof fn lemma_resolve_walk_wf(cur: ContentSchema, parts: Seq<Seq<char>>, i: int)
    requires
        cur.wf(),
    ensures
        forall|k: int| 0 <= k < resolve_walk(cur, parts, i).len() ==> (#[trigger] resolve_walk(
            cur,
            parts,
            i,
        )[k]).wf(),
    decreases parts.len() - i,
{
    if 0 <= i < parts.len() {
        if parts[i].len() == 0 {
            lemma_resolve_walk_wf(cur, parts, i + 1);
            assert(resolve_walk(cur, parts, i) == resolve_walk(cur, parts, i + 1));
        } else {
            lemma_child_step_wf(cur, parts[i]);
            match child_step(cur, parts[i]) {
                Some((c, true)) => {
                    lemma_resolve_walk_wf(c, parts, i + 1);
                    let w = resolve_walk(c, parts, i + 1);
                    assert forall|k: int| 0 <= k < resolve_walk(cur, parts, i).len() implies (
                    #[trigger] resolve_walk(cur, parts, i)[k]).wf() by {
                        assert(resolve_walk(cur, parts, i) == seq![c] + w);
                        if k > 0 {
                            assert(resolve_walk(cur, parts, i)[k] == w[k - 1]);
                        } else {
                            assert(resolve_walk(cur, parts, i)[k] == c);
                        }
                    }
                },
                Some((c, false)) => {
                    assert(resolve_walk(cur, parts, i) == seq![c]);
                    assert forall|k: int| 0 <= k < resolve_walk(cur, parts, i).len() implies (
                    #[trigger] resolve_walk(cur, parts, i)[k]).wf() by {
                        assert(resolve_walk(cur, parts, i)[k] == c);
                    }
                },
                None => {},
            }
        }
    }
}

/// Every schema that applies to a path below a well-formed root is
/// well-formed.
pub proof fn lemma_resolved_wf(root: ContentSchema, path: Seq<char>)
    requires
        root.wf(),
    ensures
        forall|k: int| 0 <= k < resolve_spec(root, path).len() ==> (#[trigger] resolve_spec(
            root,
            path,
        )[k]).wf(),
{
    let parts = split_char(path, '/');
    lemma_resolve_walk_wf(root, parts, 0);
    let w = resolve_walk(root, parts, 0);
    assert forall|k: int| 0 <= k < resolve_spec(root, path).len() implies (#[trigger] resolve_spec(
        root,
        path,
    )[k]).wf() by {
        if k > 0 {
            assert(resolve_spec(root, path)[k] == w[k - 1]);
        }
    }
}

/// The child under `key`, the first one if several.
fn child_get<'a>(p: &'a Vec<(String, ContentSchema)>, key: &str) -> (r: Option<&'a ContentSchema>)
    ensures
        match lookup(children(p@), key@) {
            Some(c) => r matches Some(x) && *x == c,
            None => r is None,
        },
{
    let mut i: usize = 0;
    assert(children(p@).skip(0) =~= children(p@));
    while i < p.len()
        invariant
            i <= p@.len(),
            lookup(children(p@), key@) == lookup(children(p@).skip(i as int), key@),
        decreases p.len() - i,
    {
        assert(children(p@).skip(i as int).drop_first() =~= children(p@).skip(i + 1));
        if str_equal(p[i].0.as_str(), key) {
            return Some(&p[i].1);
        }
        i += 1;
    }
    None
}

pub open spec fn derefs<'a>(v: Seq<&'a ContentSchema>) -> Seq<ContentSchema> {
    Seq::new(v.len(), |i: int| *v[i])
}

impl ContentSchema {
    /// The schemas that apply to a document at `content_path`, from this
    /// root down to the most specific match.
    pub fn resolve_path<'a>(&'a self, content_path: &str) -> (r: Vec<&'a ContentSchema>)
        ensures
            derefs(r@) == resolve_spec(*self, content_path@),
            self.wf() ==> forall|i: int| 0 <= i < r@.len() ==> (*#[trigger] r@[i]).wf(),
    {
        let chars = chars_of(content_path);
        let parts = split_chars(&chars, '/');
        let ghost pv = split_char(content_path@, '/');
        let mut nodes: Vec<&'a ContentSchema> = Vec::new();
        nodes.push(self);
        let mut current: &'a ContentSchema = self;
        let mut done = false;
        let mut i: usize = 0;
        assert(derefs(nodes@) =~= seq![*self]);
        while i < parts.len() && !done
            invariant
                i <= parts@.len(),
                parts@.len() == pv.len(),
                pv == split_char(content_path@, '/'),
                forall|j: int| 0 <= j < parts@.len() ==> (#[trigger] parts@[j])@ == pv[j],
                resolve_spec(*self, content_path@) == derefs(nodes@) + (if done {
                    seq![]
                } else {
                    resolve_walk(*current, pv, i as int)
                }),
            decreases parts.len() - i,
        {
            let ghost before = derefs(nodes@);
            let n = parts[i].len();
            if n > 0 {
                let comp = string_from_chars(&parts[i], 0, n);
                assert(comp@ =~= pv[i as int]);
                match child_get(&current.paths, comp.as_str()) {
                    Some(c) => {
                        nodes.push(c);
                        current = c;
                    },
                    None => match child_get(&current.paths, "*") {
                        Some(c) => {
                            nodes.push(c);
                            current = c;
                        },
                        None => {
                            match child_get(&current.paths, "**") {
                                Some(c) => {
                                    nodes.push(c);
                                },
                                None => {},
                            }
                            done = true;
                        },
                    },
                }
                assert(derefs(nodes@) =~= before + (derefs(nodes@).skip(before.len() as int)));
            }
            i += 1;
        }
        assert(derefs(nodes@) + seq![] =~= derefs(nodes@));
        proof {
            if self.wf() {
                lemma_resolved_wf(*self, content_path@);
                assert forall|i: int| 0 <= i < nodes@.len() implies (*#[trigger] nodes@[i]).wf() by {
                    assert(derefs(nodes@)[i] == *nodes@[i]);
                }
            }
        }
        nodes
    }
}


// ---------------------------------------------------------------------
// Merging a chain of schemas
// ---------------------------------------------------------------------

/// The requirements of a chain of schemas combined. Keys of `fields` are
/// distinct.
pub struct MergedSchema {
    pub required: Vec<String>,
    pub fields: Vec<(String, FieldDefinition)>,
    pub rules: Vec<ValidationRule>,
}

/// Mathematical form of [`MergedSchema`].
pub struct MergedV {
    pub required: Seq<Seq<char>>,
    pub fields: Map<Seq<char>, DefV>,
    pub rules: Seq<RuleV>,
}

/// `m` with the entries of `s` inserted in order (a later one wins).
pub open spec fn insert_all<V>(m: Map<Seq<char>, V>, s: Seq<(Seq<char>, V)>) -> Map<Seq<char>, V>
    decreases s.len(),
{
    if s.len() == 0 {
        m
    } else {
        insert_all(m, s.drop_last()).insert(s.last().0, s.last().1)
    }
}

/// The map that a key/value list stands for.
pub open spec fn assoc_map<V>(s: Seq<(Seq<char>, V)>) -> Map<Seq<char>, V> {
    insert_all(Map::empty(), s)
}

/// No key occurs twice.
pub open spec fn keys_distinct<V>(s: Seq<(Seq<char>, V)>) -> bool {
    forall|i: int, j: int| 0 <= i < j < s.len() ==> s[i].0 != s[j].0
}

proof fn lemma_assoc_at<V>(s: Seq<(Seq<char>, V)>, j: int)
    requires
        keys_distinct(s),
        0 <= j < s.len(),
    ensures
        assoc_map(s).dom().contains(s[j].0),
        assoc_map(s)[s[j].0] == s[j].1,
    decreases s.len(),
{
    if j < s.len() - 1 {
        assert(s.drop_last()[j] == s[j]);
        assert(s.last().0 != s[j].0);
        lemma_assoc_at(s.drop_last(), j);
    }
}

proof fn lemma_assoc_absent<V>(s: Seq<(Seq<char>, V)>, k: Seq<char>)
    requires
        forall|j: int| 0 <= j < s.len() ==> (#[trigger] s[j]).0 != k,
    ensures
        !assoc_map(s).dom().contains(k),
    decreases s.len(),
{
    if s.len() > 0 {
        assert forall|j: int| 0 <= j < s.drop_last().len() implies (#[trigger] s.drop_last()[j]).0
            != k by {
            assert(s.drop_last()[j] == s[j]);
        }
        lemma_assoc_absent(s.drop_last(), k);
        assert(s[s.len() - 1].0 != k);
    }
}

proof fn lemma_lookup_at<V>(s: Seq<(Seq<char>, V)>, j: int)
    requires
        keys_distinct(s),
        0 <= j < s.len(),
    ensures
        lookup(s, s[j].0) == Some(s[j].1),
    decreases s.len(),
{
    if j > 0 {
        assert(s[0].0 != s[j].0);
        assert(s.drop_first()[j - 1] == s[j]);
        lemma_lookup_at(s.drop_first(), j - 1);
    }
}

proof fn lemma_lookup_absent<V>(s: Seq<(Seq<char>, V)>, k: Seq<char>)
    requires
        forall|j: int| 0 <= j < s.len() ==> (#[trigger] s[j]).0 != k,
    ensures
        lookup(s, k) is None,
    decreases s.len(),
{
    if s.len() > 0 {
        assert(s[0].0 != k);
        assert forall|j: int| 0 <= j < s.drop_first().len() implies (#[trigger] s.drop_first()[j]).0
            != k by {
            assert(s.drop_first()[j] == s[j + 1]);
        }
        lemma_lookup_absent(s.drop_first(), k);
    }
}

/// With distinct keys, a key/value list read front to back (what the
/// library's lookups do) and the map it stands for agree: a key reads as
/// the map's value for it, and a key the map lacks reads as nothing.
pub proof fn lemma_lookup_is_map<V>(s: Seq<(Seq<char>, V)>, k: Seq<char>)
    requires
        keys_distinct(s),
    ensures
        lookup(s, k) == (if assoc_map(s).dom().contains(k) {
            Some(assoc_map(s)[k])
        } else {
            None
        }),
{
    if exists|j: int| 0 <= j < s.len() && s[j].0 == k {
        let j = choose|j: int| 0 <= j < s.len() && s[j].0 == k;
        lemma_assoc_at(s, j);
        lemma_lookup_at(s, j);
    } else {
        lemma_assoc_absent(s, k);
        lemma_lookup_absent(s, k);
    }
}

pub open spec fn rules_view(r: Seq<ValidationRule>) -> Seq<RuleV> {
    Seq::new(r.len(), |i: int| r[i]@)
}

impl View for MergedSchema {
    type V = MergedV;

    open spec fn view(&self) -> MergedV {
        MergedV {
            required: strings_view(self.required@),
            fields: assoc_map(defs_view(self.fields@)),
            rules: rules_view(self.rules@),
        }
    }
}

impl MergedSchema {
    pub open spec fn wf(&self) -> bool {
        keys_distinct(defs_view(self.fields@))
    }

    /// Its field definitions and rules are well-formed too.
    pub open spec fn parts_wf(&self) -> bool {
        &&& defs_wf(defs_view(self.fields@))
        &&& forall|i: int| 0 <= i < self.rules@.len() ==> rule_wf(#[trigger] self.rules@[i]@)
    }
}

/// `acc` followed by the names of `req` that `acc` does not hold yet.
pub open spec fn add_required(acc: Seq<Seq<char>>, req: Seq<Seq<char>>) -> Seq<Seq<char>> {
    acc + req.filter(|f: Seq<char>| !acc.contains(f))
}

/// Required names of the first `n` schemas, merged.
pub open spec fn merged_required(nodes: Seq<ContentSchema>, n: int) -> Seq<Seq<char>>
    decreases n,
{
    if n <= 0 {
        seq![]
    } else {
        add_required(merged_required(nodes, n - 1), strings_view(nodes[n - 1].required@))
    }
}

/// Field definitions of the first `n` schemas, a later schema's winning.
pub open spec fn merged_fields(nodes: Seq<ContentSchema>, n: int) -> Map<Seq<char>, DefV>
    decreases n,
{
    if n <= 0 {
        Map::empty()
    } else {
        insert_all(merged_fields(nodes, n - 1), defs_view(nodes[n - 1].fields@))
    }
}

/// Rules of the first `n` schemas, in order.
pub open spec fn merged_rules(nodes: Seq<ContentSchema>, n: int) -> Seq<RuleV>
    decreases n,
{
    if n <= 0 {
        seq![]
    } else {
        merged_rules(nodes, n - 1) + rules_view(nodes[n - 1].rules@)
    }
}

pub open spec fn merge_spec(nodes: Seq<ContentSchema>) -> MergedV {
    MergedV {
        required: merged_required(nodes, nodes.len() as int),
        fields: merged_fields(nodes, nodes.len() as int),
        rules: merged_rules(nodes, nodes.len() as int),
    }
}

/// Replacing the entry of a key by a new one for the same key is an
/// insertion into the map.
pub proof fn lemma_insert_all_update<V>(m: Map<Seq<char>, V>, s: Seq<(Seq<char>, V)>, p: int, x: (Seq<char>, V))
    requires
        keys_distinct(s),
        0 <= p < s.len(),
        s[p].0 == x.0,
    ensures
        insert_all(m, s.update(p, x)) == insert_all(m, s).insert(x.0, x.1),
    decreases s.len(),
{
    let t = s.update(p, x);
    if p == s.len() - 1 {
        assert(t.drop_last() =~= s.drop_last());
        assert(insert_all(m, t) =~= insert_all(m, s).insert(x.0, x.1));
    } else {
        assert(t.drop_last() =~= s.drop_last().update(p, x));
        lemma_insert_all_update(m, s.drop_last(), p, x);
        assert(s.last().0 != x.0);
        assert(insert_all(m, t) =~= insert_all(m, s).insert(x.0, x.1));
    }
}

/// Whether `v` holds `s`.
pub(crate) fn contains_str(v: &Vec<String>, s: &str) -> (r: bool)
    ensures
        r == strings_view(v@).contains(s@),
{
    let mut i: usize = 0;
    while i < v.len()
        invariant
            i <= v@.len(),
            forall|j: int| 0 <= j < i ==> strings_view(v@)[j] != s@,
        decreases v.len() - i,
    {
        if str_equal(v[i].as_str(), s) {
            assert(strings_view(v@)[i as int] == s@);
            return true;
        }
        i += 1;
    }
    false
}

/// Position of the entry for `key`, if any.
fn field_position(fields: &Vec<(String, FieldDefinition)>, key: &str) -> (r: Option<usize>)
    ensures
        match r {
            Some(p) => p < fields@.len() && fields@[p as int].0@ == key@,
            None => forall|j: int| 0 <= j < fields@.len() ==> (#[trigger] fields@[j]).0@ != key@,
        },
{
    let mut i: usize = 0;
    while i < fields.len()
        invariant
            i <= fields@.len(),
            forall|j: int| 0 <= j < i ==> (#[trigger] fields@[j]).0@ != key@,
        decreases fields.len() - i,
    {
        if str_equal(fields[i].0.as_str(), key) {
            return Some(i);
        }
        i += 1;
    }
    None
}

/// Sets the definition of `key`, replacing the one it had.
fn insert_field(fields: &mut Vec<(String, FieldDefinition)>, key: String, def: FieldDefinition)
    requires
        keys_distinct(defs_view(old(fields)@)),
    ensures
        keys_distinct(defs_view(final(fields)@)),
        assoc_map(defs_view(final(fields)@)) == assoc_map(defs_view(old(fields)@)).insert(
            key@,
            def@,
        ),
        defs_wf(defs_view(old(fields)@)) && def_wf(def@) ==> defs_wf(defs_view(final(fields)@)),
{
    let ghost s = defs_view(fields@);
    let ghost x = (key@, def@);
    match field_position(fields, key.as_str()) {
        Some(p) => {
            fields.set(p, (key, def));
            proof {
                assert(defs_view(fields@) =~= s.update(p as int, x));
                lemma_insert_all_update(Map::empty(), s, p as int, x);
                if defs_wf(s) && def_wf(def@) {
                    assert forall|i: int| 0 <= i < defs_view(fields@).len() implies def_wf(
                        #[trigger] defs_view(fields@)[i].1,
                    ) by {
                        if i != p {
                            assert(defs_view(fields@)[i] == s[i]);
                        }
                    }
                }
            }
        },
        None => {
            fields.push((key, def));
            proof {
                assert(defs_view(fields@) =~= s.push(x));
                assert(defs_view(fields@).drop_last() =~= s);
                assert forall|i: int, j: int|
                    0 <= i < j < defs_view(fields@).len() implies defs_view(fields@)[i].0
                    != defs_view(fields@)[j].0 by {
                    if j == s.len() {
                        assert(old(fields)@[i].0@ != key@);
                    }
                }
                if defs_wf(s) && def_wf(def@) {
                    assert forall|i: int| 0 <= i < defs_view(fields@).len() implies def_wf(
                        #[trigger] defs_view(fields@)[i].1,
                    ) by {
                        if i < s.len() {
                            assert(defs_view(fields@)[i] == s[i]);
                        }
                    }
                }
            }
        },
    }
}

impl ContentSchema {
    /// Combines a chain of schemas (root first): required names without
    /// repeating one already required by an earlier schema, field
    /// definitions with a later schema's overriding an earlier one's, and
    /// all rules in order.
    pub fn merge_hierarchy(nodes: &[&ContentSchema]) -> (r: MergedSchema)
        ensures
            r.wf(),
            r@ == merge_spec(derefs(nodes@)),
            (forall|i: int| 0 <= i < nodes@.len() ==> (*#[trigger] nodes@[i]).wf()) ==> r.parts_wf(),
    {
        let ghost ns = derefs(nodes@);
        let ghost nodes_wf = forall|i: int| 0 <= i < nodes@.len() ==> (*#[trigger] nodes@[i]).wf();
        let mut required: Vec<String> = Vec::new();
        let mut fields: Vec<(String, FieldDefinition)> = Vec::new();
        let mut rules: Vec<ValidationRule> = Vec::new();
        let mut k: usize = 0;
        assert(strings_view(required@) =~= merged_required(ns, 0));
        assert(assoc_map(defs_view(fields@)) =~= merged_fields(ns, 0));
        assert(rules_view(rules@) =~= merged_rules(ns, 0));
        while k < nodes.len()
            invariant
                k <= nodes@.len(),
                ns == derefs(nodes@),
                nodes_wf == forall|i: int| 0 <= i < nodes@.len() ==> (*#[trigger] nodes@[i]).wf(),
                nodes_wf ==> defs_wf(defs_view(fields@)),
                nodes_wf ==> forall|i: int| 0 <= i < rules@.len() ==> rule_wf(#[trigger] rules@[i]@),
                keys_distinct(defs_view(fields@)),
                strings_view(required@) == merged_required(ns, k as int),
                assoc_map(defs_view(fields@)) == merged_fields(ns, k as int),
                rules_view(rules@) == merged_rules(ns, k as int),
            decreases nodes.len() - k,
        {
            let node: &ContentSchema = nodes[k];
            assert(*node == ns[k as int]);
            // required names
            let before = clone_strings(&required);
            let ghost acc = strings_view(before@);
            let ghost req = strings_view(node.required@);
            let ghost pred = |f: Seq<char>| !acc.contains(f);
            let mut j: usize = 0;
            assert(req.take(0).filter(pred) =~= seq![]) by {
                reveal(Seq::filter);
            }
            assert(strings_view(required@) =~= acc + req.take(0).filter(pred));
            while j < node.required.len()
                invariant
                    j <= node.required@.len(),
                    acc == strings_view(before@),
                    req == strings_view(node.required@),
                    pred == (|f: Seq<char>| !acc.contains(f)),
                    strings_view(required@) == acc + req.take(j as int).filter(pred),
                decreases node.required.len() - j,
            {
                let name = &node.required[j];
                let ghost old_req = required@;
                proof {
                    assert(req.take(j + 1) =~= req.take(j as int).push(req[j as int]));
                    req.take(j as int).lemma_filter_push(req[j as int], pred);
                }
                assert(req[j as int] == name@);
                if !contains_str(&before, name.as_str()) {
                    assert(pred(req[j as int]));
                    required.push(name.clone());
                    assert(strings_view(required@) =~= strings_view(old_req).push(name@));
                    assert(strings_view(required@) =~= acc + req.take(j + 1).filter(pred));
                } else {
                    assert(strings_view(required@) =~= acc + req.take(j + 1).filter(pred));
                }
                j += 1;
            }
            assert(req.take(req.len() as int) =~= req);
            // field definitions
            let ghost m0 = assoc_map(defs_view(fields@));
            let ghost fs = defs_view(node.fields@);
            let mut j: usize = 0;
            assert(fs.take(0) =~= seq![]);
            while j < node.fields.len()
                invariant
                    j <= node.fields@.len(),
                    fs == defs_view(node.fields@),
                    nodes_wf ==> node.wf(),
                    nodes_wf ==> defs_wf(defs_view(fields@)),
                    keys_distinct(defs_view(fields@)),
                    assoc_map(defs_view(fields@)) == insert_all(m0, fs.take(j as int)),
                decreases node.fields.len() - j,
            {
                let key = node.fields[j].0.clone();
                let def = node.fields[j].1.clone();
                assert(def@ == fs[j as int].1);
                insert_field(&mut fields, key, def);
                assert(fs.take(j + 1).drop_last() =~= fs.take(j as int));
                j += 1;
            }
            assert(fs.take(fs.len() as int) =~= fs);
            // rules
            let ghost r0 = rules_view(rules@);
            let ghost rs = rules_view(node.rules@);
            let mut j: usize = 0;
            assert(r0 + rs.take(0) =~= r0);
            while j < node.rules.len()
                invariant
                    j <= node.rules@.len(),
                    rs == rules_view(node.rules@),
                    nodes_wf ==> node.wf(),
                    nodes_wf ==> forall|i: int| 0 <= i < rules@.len() ==> rule_wf(#[trigger] rules@[i]@),
                    rules_view(rules@) == r0 + rs.take(j as int),
                decreases node.rules.len() - j,
            {
                let rule = node.rules[j].clone();
                assert(rule@ == rs[j as int]);
                let ghost old_rules = rules@;
                rules.push(rule);
                assert(rules@[rules@.len() - 1]@ == node.rules@[j as int]@);
                assert(rules_view(rules@) =~= rules_view(old_rules).push(rs[j as int]));
                assert(rules_view(rules@) =~= r0 + rs.take(j + 1));
                j += 1;
            }
            assert(rs.take(rs.len() as int) =~= rs);
            k += 1;
        }
        MergedSchema { required, fields, rules }
    }
}


// ---------------------------------------------------------------------
// Configuration consistency
// ---------------------------------------------------------------------

pub open spec fn config_message(f: Seq<char>) -> Seq<char> {
    "Required field '"@ + f + "' has no matching [content_schema.fields."@ + f + "] section"@
}

/// One message for each required name without a field definition, in
/// order.
pub open spec fn config_errors(req: Seq<Seq<char>>, defs: Seq<(Seq<char>, DefV)>) -> Seq<Seq<char>>
    decreases req.len(),
{
    if req.len() == 0 {
        seq![]
    } else {
        config_errors(req.drop_last(), defs) + if lookup(defs, req.last()) is None {
            seq![config_message(req.last())]
        } else {
            seq![]
        }
    }
}

/// Whether `fields` defines `key`.
fn has_field(fields: &Vec<(String, FieldDefinition)>, key: &str) -> (r: bool)
    ensures
        r == lookup(defs_view(fields@), key@) is Some,
{
    let mut i: usize = 0;
    assert(defs_view(fields@).skip(0) =~= defs_view(fields@));
    while i < fields.len()
        invariant
            i <= fields@.len(),
            lookup(defs_view(fields@), key@) == lookup(defs_view(fields@).skip(i as int), key@),
        decreases fields.len() - i,
    {
        assert(defs_view(fields@).skip(i as int).drop_first() =~= defs_view(fields@).skip(i + 1));
        if str_equal(fields[i].0.as_str(), key) {
            return true;
        }
        i += 1;
    }
    false
}

impl ContentSchema {
    /// A message for each required field that has no definition.
    pub fn validate_config(&self) -> (r: Vec<String>)
        ensures
            strings_view(r@) == config_errors(strings_view(self.required@), defs_view(self.fields@)),
    {
        let ghost req = strings_view(self.required@);
        let ghost defs = defs_view(self.fields@);
        let mut errors: Vec<String> = Vec::new();
        let mut i: usize = 0;
        assert(req.take(0) =~= seq![]);
        while i < self.required.len()
            invariant
                i <= self.required@.len(),
                req == strings_view(self.required@),
                defs == defs_view(self.fields@),
                strings_view(errors@) == config_errors(req.take(i as int), defs),
            decreases self.required.len() - i,
        {
            let field = &self.required[i];
            let ghost before = errors@;
            assert(req.take(i + 1).drop_last() =~= req.take(i as int));
            assert(req.take(i + 1).last() == field@);
            if !has_field(&self.fields, field.as_str()) {
                let mut m = String::from_str("Required field '");
                m.append(field.as_str());
                m.append("' has no matching [content_schema.fields.");
                m.append(field.as_str());
                m.append("] section");
                errors.push(m);
                assert(strings_view(errors@) =~= strings_view(before).push(config_message(field@)));
            } else {
                assert(config_errors(req.take(i + 1), defs) =~= config_errors(req.take(i as int), defs));
            }
            i += 1;
        }
        assert(req.take(req.len() as int) =~= req);
        errors
    }
}


// ---------------------------------------------------------------------
// Laws
// ---------------------------------------------------------------------

proof fn lemma_lookup_in<V>(t: Seq<(Seq<char>, V)>, key: Seq<char>)
    requires
        lookup(t, key) is Some,
    ensures
        exists|i: int| 0 <= i < t.len() && t[i] == (key, lookup(t, key)->0),
    decreases t.len(),
{
    if t[0].0 != key {
        lemma_lookup_in(t.drop_first(), key);
        let i = choose|i: int|
            0 <= i < t.drop_first().len() && t.drop_first()[i] == (key, lookup(t, key)->0);
        assert(t[i + 1] == t.drop_first()[i]);
    } else {
        assert(t[0] == (key, lookup(t, key)->0));
    }
}

/// `b` is one of the child schemas of `a`.
pub open spec fn is_child(a: ContentSchema, b: ContentSchema) -> bool {
    exists|j: int| 0 <= j < a.paths@.len() && (#[trigger] a.paths@[j]).1 == b
}

proof fn lemma_step_is_child(cur: ContentSchema, comp: Seq<char>)
    requires
        child_step(cur, comp) is Some,
    ensures
        is_child(cur, (child_step(cur, comp)->0).0),
{
    let t = children(cur.paths@);
    let key = if lookup(t, comp) is Some {
        comp
    } else if lookup(t, "*"@) is Some {
        "*"@
    } else {
        "**"@
    };
    lemma_lookup_in(t, key);
    let i = choose|i: int| 0 <= i < t.len() && t[i] == (key, lookup(t, key)->0);
    assert(cur.paths@[i].1 == t[i].1);
}

proof fn lemma_walk_chain(cur: ContentSchema, parts: Seq<Seq<char>>, i: int)
    ensures
        resolve_walk(cur, parts, i).len() > 0 ==> is_child(cur, resolve_walk(cur, parts, i)[0]),
        forall|m: int|
            0 <= m < resolve_walk(cur, parts, i).len() - 1 ==> is_child(
                #[trigger] resolve_walk(cur, parts, i)[m],
                resolve_walk(cur, parts, i)[m + 1],
            ),
        resolve_walk(cur, parts, i).len() <= parts.len() - i || resolve_walk(cur, parts, i).len()
            == 0,
    decreases parts.len() - i,
{
    if 0 <= i < parts.len() {
        if parts[i].len() == 0 {
            lemma_walk_chain(cur, parts, i + 1);
        } else if child_step(cur, parts[i]) is Some {
            lemma_step_is_child(cur, parts[i]);
            let (c, more) = child_step(cur, parts[i])->0;
            if more {
                lemma_walk_chain(c, parts, i + 1);
                let w = resolve_walk(c, parts, i + 1);
                let v = seq![c] + w;
                assert(resolve_walk(cur, parts, i) == v);
                assert forall|m: int| 0 <= m < v.len() - 1 implies is_child(
                    #[trigger] v[m],
                    v[m + 1],
                ) by {
                    if m > 0 {
                        assert(v[m] == w[m - 1] && v[m + 1] == w[m]);
                    } else {
                        assert(v[1] == w[0]);
                    }
                }
            }
        }
    }
}

/// The non-empty components among `parts`, from the `i`-th on, in order.
pub open spec fn comps_from(parts: Seq<Seq<char>>, i: int) -> Seq<Seq<char>>
    decreases parts.len() - i,
{
    if !(0 <= i < parts.len()) {
        seq![]
    } else if parts[i].len() == 0 {
        comps_from(parts, i + 1)
    } else {
        seq![parts[i]] + comps_from(parts, i + 1)
    }
}

/// The non-empty `/`-separated components of a content path.
pub open spec fn path_components(path: Seq<char>) -> Seq<Seq<char>> {
    comps_from(split_char(path, '/'), 0)
}

proof fn lemma_walk_follows(cur: ContentSchema, parts: Seq<Seq<char>>, i: int)
    requires
        0 <= i,
    ensures
        ({
            let w = resolve_walk(cur, parts, i);
            let cs = comps_from(parts, i);
            let ch = seq![cur] + w;
            &&& w.len() <= cs.len()
            &&& forall|k: int|
                0 <= k < w.len() ==> ((#[trigger] child_step(ch[k], cs[k])) matches Some((c, more))
                    && c == ch[k + 1] && (k + 1 < w.len() ==> more))
            &&& w.len() < cs.len() ==> (child_step(ch[w.len() as int], cs[w.len() as int]) is None || (
            w.len() >= 1 && child_step(ch[w.len() - 1], cs[w.len() - 1]) matches Some((_, false))))
        }),
    decreases parts.len() - i,
{
    let w = resolve_walk(cur, parts, i);
    let cs = comps_from(parts, i);
    let ch = seq![cur] + w;
    if !(0 <= i < parts.len()) {
    } else if parts[i].len() == 0 {
        lemma_walk_follows(cur, parts, i + 1);
        assert(w == resolve_walk(cur, parts, i + 1));
        assert(cs == comps_from(parts, i + 1));
    } else {
        let rest = comps_from(parts, i + 1);
        assert(cs == seq![parts[i]] + rest);
        assert(cs[0] == parts[i]);
        assert(ch[0] == cur);
        match child_step(cur, parts[i]) {
            None => {
                assert(w == Seq::<ContentSchema>::empty());
            },
            Some((c, false)) => {
                assert(w == seq![c]);
                assert(ch[1] == c);
            },
            Some((c, true)) => {
                lemma_walk_follows(c, parts, i + 1);
                let w2 = resolve_walk(c, parts, i + 1);
                let ch2 = seq![c] + w2;
                assert(w == seq![c] + w2);
                assert(ch =~= seq![cur] + ch2);
                assert forall|k: int|
                    0 <= k < w.len() implies ((#[trigger] child_step(ch[k], cs[k])) matches Some((c2, more))
                    && c2 == ch[k + 1] && (k + 1 < w.len() ==> more)) by {
                    if k == 0 {
                        assert(ch[1] == c);
                    } else {
                        assert(ch[k] == ch2[k - 1]);
                        assert(ch[k + 1] == ch2[k]);
                        assert(cs[k] == rest[k - 1]);
                        assert(child_step(ch2[k - 1], rest[k - 1]) matches Some((c3, more3)) && (c3
                            == ch2[k] && (k < w2.len() ==> more3)));
                    }
                }
                if w.len() < cs.len() {
                    let n = w2.len() as int;
                    assert(ch[n + 1] == ch2[n]);
                    assert(cs[n + 1] == rest[n]);
                    if n >= 1 {
                        assert(ch[n] == ch2[n - 1]);
                        assert(cs[n] == rest[n - 1]);
                    }
                }
            },
        }
    }
}

/// The schemas found for a path follow its components one by one: after
/// the root, the `k`-th schema is the child that the `k`-th non-empty
/// component selects from the one before (its exact key, else `*`, else
/// `**`), and every schema but the last was entered by a key that lets
/// the descent go on (not `**`). The descent ends at a component that
/// selects no child, after a `**`, or when the components run out: no
/// component after a missing one is ever looked up.
pub proof fn lemma_resolve_follows_path(root: ContentSchema, path: Seq<char>)
    ensures
        ({
            let r = resolve_spec(root, path);
            let cs = path_components(path);
            &&& r[0] == root
            &&& 1 <= r.len() <= cs.len() + 1
            &&& forall|k: int|
                0 <= k < r.len() - 1 ==> ((#[trigger] child_step(r[k], cs[k])) matches Some((c, more))
                    && c == r[k + 1] && (k + 2 < r.len() ==> more))
            &&& r.len() - 1 < cs.len() ==> (child_step(r[r.len() - 1], cs[r.len() - 1]) is None || (
            r.len() >= 2 && child_step(r[r.len() - 2], cs[r.len() - 2]) matches Some((_, false))))
        }),
{
    lemma_walk_follows(root, split_char(path, '/'), 0);
}

/// The schemas found for a path start at the root, and each one after it
/// is a child of the one before; there is at most one per path component
/// besides the root.
pub proof fn lemma_resolve_is_chain(root: ContentSchema, path: Seq<char>)
    ensures
        resolve_spec(root, path).len() >= 1,
        resolve_spec(root, path)[0] == root,
        resolve_spec(root, path).len() <= split_char(path, '/').len() + 1,
        forall|m: int|
            0 <= m < resolve_spec(root, path).len() - 1 ==> is_child(
                #[trigger] resolve_spec(root, path)[m],
                resolve_spec(root, path)[m + 1],
            ),
{
    let parts = split_char(path, '/');
    lemma_walk_chain(root, parts, 0);
    let w = resolve_walk(root, parts, 0);
    let v = resolve_spec(root, path);
    assert forall|m: int| 0 <= m < v.len() - 1 implies is_child(#[trigger] v[m], v[m + 1]) by {
        if m > 0 {
            assert(v[m] == w[m - 1] && v[m + 1] == w[m]);
        } else {
            assert(v[1] == w[0]);
        }
    }
}

proof fn lemma_filter_no_dup(s: Seq<Seq<char>>, pred: spec_fn(Seq<char>) -> bool)
    requires
        s.no_duplicates(),
    ensures
        s.filter(pred).no_duplicates(),
    decreases s.len(),
{
    reveal(Seq::filter);
    if s.len() > 0 {
        let d = s.drop_last();
        lemma_filter_no_dup(d, pred);
        if pred(s.last()) {
            if d.filter(pred).contains(s.last()) {
                d.lemma_filter_contains_rev(pred, s.last());
                let k = choose|k: int| 0 <= k < d.len() && d[k] == s.last();
                assert(s[k] == s[s.len() - 1]);
            }
            assert(d.filter(pred).push(s.last()) =~= d.filter(pred) + seq![s.last()]);
            vstd::seq_lib::lemma_no_dup_in_concat(d.filter(pred), seq![s.last()]);
        }
    }
}

proof fn lemma_add_required(acc: Seq<Seq<char>>, req: Seq<Seq<char>>)
    ensures
        acc.no_duplicates() && req.no_duplicates() ==> add_required(acc, req).no_duplicates(),
        forall|f: Seq<char>|
            add_required(acc, req).contains(f) <==> (acc.contains(f) || req.contains(f)),
{
    broadcast use vstd::seq_lib::group_filter_ensures;

    let pred = |f: Seq<char>| !acc.contains(f);
    let fl = req.filter(pred);
    if acc.no_duplicates() && req.no_duplicates() {
        lemma_filter_no_dup(req, pred);
        assert forall|i: int, j: int| 0 <= i < acc.len() && 0 <= j < fl.len() implies acc[i]
            != fl[j] by {
            assert(pred(fl[j]));
        }
        vstd::seq_lib::lemma_no_dup_in_concat(acc, fl);
    }
    assert forall|f: Seq<char>|
        add_required(acc, req).contains(f) <==> (acc.contains(f) || req.contains(f)) by {
        let v = acc + fl;
        if v.contains(f) {
            let k = choose|k: int| 0 <= k < v.len() && v[k] == f;
            if k >= acc.len() {
                assert(fl.contains(f)) by {
                    assert(fl[k - acc.len()] == f);
                }
                req.lemma_filter_contains_rev(pred, f);
            } else {
                assert(acc[k] == f);
            }
        }
        if acc.contains(f) {
            let k = choose|k: int| 0 <= k < acc.len() && acc[k] == f;
            assert(v[k] == f);
        } else if req.contains(f) {
            let k = choose|k: int| 0 <= k < req.len() && req[k] == f;
            assert(fl.contains(req[k]));
            let m = choose|m: int| 0 <= m < fl.len() && fl[m] == f;
            assert(v[acc.len() + m] == f);
        }
    }
}

proof fn lemma_merged_required(nodes: Seq<ContentSchema>, n: int)
    requires
        0 <= n <= nodes.len(),
    ensures
        (forall|k: int| 0 <= k < n ==> (#[trigger] strings_view(nodes[k].required@)).no_duplicates())
            ==> merged_required(nodes, n).no_duplicates(),
        forall|f: Seq<char>|
            merged_required(nodes, n).contains(f) <==> exists|k: int|
                0 <= k < n && (#[trigger] strings_view(nodes[k].required@)).contains(f),
    decreases n,
{
    if n > 0 {
        lemma_merged_required(nodes, n - 1);
        let acc = merged_required(nodes, n - 1);
        let req = strings_view(nodes[n - 1].required@);
        lemma_add_required(acc, req);
        assert forall|f: Seq<char>|
            merged_required(nodes, n).contains(f) <==> exists|k: int|
                0 <= k < n && (#[trigger] strings_view(nodes[k].required@)).contains(f) by {
            if req.contains(f) {
                assert(strings_view(nodes[n - 1].required@).contains(f));
            }
            if exists|k: int| 0 <= k < n && (#[trigger] strings_view(nodes[k].required@)).contains(f) {
                let k = choose|k: int|
                    0 <= k < n && (#[trigger] strings_view(nodes[k].required@)).contains(f);
                if k < n - 1 {
                    assert(acc.contains(f));
                }
            }
        }
    } else {
        assert(merged_required(nodes, n) =~= seq![]);
    }
}

/// Merged required names repeat none, when no schema repeats one of its
/// own; and they are exactly the names some schema of the chain requires.
pub proof fn lemma_merge_required(nodes: Seq<ContentSchema>)
    ensures
        (forall|k: int| 0 <= k < nodes.len() ==> (#[trigger] strings_view(nodes[k].required@)).no_duplicates())
            ==> merge_spec(nodes).required.no_duplicates(),
        forall|f: Seq<char>|
            merge_spec(nodes).required.contains(f) <==> exists|k: int|
                0 <= k < nodes.len() && (#[trigger] strings_view(nodes[k].required@)).contains(f),
{
    lemma_merged_required(nodes, nodes.len() as int);
}

proof fn lemma_insert_all_union<V>(m: Map<Seq<char>, V>, s: Seq<(Seq<char>, V)>)
    ensures
        insert_all(m, s) == m.union_prefer_right(assoc_map(s)),
    decreases s.len(),
{
    if s.len() == 0 {
        assert(m.union_prefer_right(Map::empty()) =~= m);
    } else {
        lemma_insert_all_union(m, s.drop_last());
        assert(insert_all(m, s) =~= m.union_prefer_right(assoc_map(s)));
    }
}

/// A schema later in the chain overrides the field definitions of the
/// earlier ones: the merged definitions of the first `n` schemas are those
/// of the first `n - 1` updated with the `n`-th schema's own.
pub proof fn lemma_merge_fields_override(nodes: Seq<ContentSchema>, n: int)
    requires
        1 <= n <= nodes.len(),
    ensures
        merged_fields(nodes, n) == merged_fields(nodes, n - 1).union_prefer_right(
            assoc_map(defs_view(nodes[n - 1].fields@)),
        ),
        forall|k: Seq<char>|
            #[trigger] assoc_map(defs_view(nodes[n - 1].fields@)).contains_key(k) ==> merged_fields(
                nodes,
                n,
            )[k] == assoc_map(defs_view(nodes[n - 1].fields@))[k],
{
    lemma_insert_all_union(merged_fields(nodes, n - 1), defs_view(nodes[n - 1].fields@));
}

proof fn lemma_filter_all(s: Seq<Seq<char>>, pred: spec_fn(Seq<char>) -> bool)
    requires
        forall|f: Seq<char>| #[trigger] pred(f),
    ensures
        s.filter(pred) == s,
    decreases s.len(),
{
    reveal(Seq::filter);
    if s.len() > 0 {
        lemma_filter_all(s.drop_last(), pred);
        assert(s.drop_last().push(s.last()) =~= s);
    }
}

/// Merging a single schema gives back its own requirements, in order.
pub proof fn lemma_merge_single(node: ContentSchema)
    ensures
        merge_spec(seq![node]) == (MergedV {
            required: strings_view(node.required@),
            fields: assoc_map(defs_view(node.fields@)),
            rules: rules_view(node.rules@),
        }),
{
    let nodes = seq![node];
    let req = strings_view(node.required@);
    let e: Seq<Seq<char>> = seq![];
    let pred = |f: Seq<char>| !e.contains(f);
    lemma_filter_all(req, pred);
    assert(nodes.len() == 1 && nodes[0] == node);
    assert(merged_required(nodes, 0) == e);
    assert(merged_rules(nodes, 0) =~= seq![]);
    assert(merged_fields(nodes, 0) == Map::<Seq<char>, DefV>::empty());
    assert(merged_fields(nodes, 1) == assoc_map(defs_view(node.fields@)));
    assert(merged_required(nodes, 1) =~= req);
    assert(merged_rules(nodes, 1) =~= rules_view(node.rules@));
}

// ---------------------------------------------------------------------
// Content paths
// ---------------------------------------------------------------------

/// `s` with each `\\` written as `/`.
pub open spec fn with_slashes(s: Seq<char>) -> Seq<char> {
    s.map_values(|c: char| if c == '\\' { '/' } else { c })
}

/// `s` without the `.norg` suffixes at its end (`trim_end_matches`).
pub open spec fn trim_norg(s: Seq<char>) -> Seq<char>
    decreases s.len(),
{
    if s.len() >= 5 && s.skip(s.len() - 5) == ".norg"@ {
        trim_norg(s.take(s.len() - 5))
    } else {
        s
    }
}

/// The path by which a content file is matched against the schemas: its
/// relative path with `/` separators, without the `.norg` extension.
pub open spec fn content_path_spec(rel: Seq<char>) -> Seq<char> {
    trim_norg(with_slashes(rel))
}

pub fn content_path_of(rel_path: &str) -> (r: String)
    ensures
        r@ == content_path_spec(rel_path@),
{
    let cs = chars_of(rel_path);
    let mut v: Vec<char> = Vec::new();
    let mut i: usize = 0;
    while i < cs.len()
        invariant
            i <= cs@.len(),
            cs@ == rel_path@,
            v@ == with_slashes(cs@).take(i as int),
        decreases cs.len() - i,
    {
        let c = cs[i];
        v.push(if c == '\\' { '/' } else { c });
        assert(v@ =~= with_slashes(cs@).take(i + 1));
        i += 1;
    }
    assert(v@ =~= with_slashes(rel_path@));
    let ghost w = v@;
    let suffix = chars_of(".norg");
    proof {
        reveal_strlit(".norg");
    }
    let mut e: usize = v.len();
    assert(w.take(e as int) =~= w);
    while e >= 5 && crate::text::matches_chars_at(&v, &suffix, e - 5)
        invariant
            e <= v@.len(),
            v@ == w,
            suffix@ == ".norg"@,
            trim_norg(w) == trim_norg(w.take(e as int)),
        decreases e,
    {
        proof {
            reveal_strlit(".norg");
            let s = w.take(e as int);
            assert(s.skip(s.len() - 5) =~= w.subrange(e - 5, e as int));
            assert(s.take(s.len() - 5) =~= w.take(e - 5));
        }
        e -= 5;
    }
    proof {
        if e >= 5 {
            assert(w.take(e as int).skip(e - 5) =~= w.subrange(e - 5, e as int));
        }
        assert(w.take(e as int) =~= w.subrange(0, e as int));
    }
    string_from_chars(&v, 0, e)
}

/// The schema path that matched a content path, given how many schemas
/// apply (the root among them): its first components, one fewer than the
/// schemas, joined with `/`.
pub open spec fn matched_path_spec(content_path: Seq<char>, nodes: nat) -> Seq<char> {
    let parts = split_char(content_path, '/');
    let k = nodes - 1;
    join_with(if k <= parts.len() { parts.take(k) } else { parts }, "/"@)
}

pub fn matched_schema_path(content_path: &str, nodes: usize) -> (r: String)
    requires
        nodes >= 1,
    ensures
        r@ == matched_path_spec(content_path@, nodes as nat),
{
    let cs = chars_of(content_path);
    let parts = split_chars(&cs, '/');
    let ghost pv = split_char(content_path@, '/');
    let k = if nodes - 1 <= parts.len() { nodes - 1 } else { parts.len() };
    let ghost taken = pv.take(k as int);
    assert(taken =~= (if nodes - 1 <= pv.len() { pv.take(nodes - 1) } else { pv }));
    let mut out = String::new();
    let mut i: usize = 0;
    while i < k
        invariant
            k <= parts@.len(),
            parts@.len() == pv.len(),
            forall|j: int| 0 <= j < parts@.len() ==> (#[trigger] parts@[j])@ == pv[j],
            taken == pv.take(k as int),
            i <= k,
            out@ == join_with(taken.take(i as int), "/"@),
        decreases k - i,
    {
        assert(taken.take(i + 1).drop_last() =~= taken.take(i as int));
        if i > 0 {
            out.append("/");
        }
        let piece = string_from_chars(&parts[i], 0, parts[i].len());
        assert(piece@ =~= pv[i as int]);
        out.append(piece.as_str());
        proof {
            if i == 0 {
                assert(out@ =~= join_with(taken.take(1), "/"@));
            }
        }
        i += 1;
    }
    assert(taken.take(k as int) =~= taken);
    out
}

/// The name under which a document's schema errors are reported: its path,
/// with the matched schema path when there is one.
pub fn schema_source_name(path: &str, matched: &str) -> (r: String)
    ensures
        r@ == if matched@.len() == 0 {
            path@
        } else {
            path@ + " (schema: '"@ + matched@ + "')"@
        },
{
    if matched.unicode_len() == 0 {
        String::from_str(path)
    } else {
        let mut s = crate::text::concat3(path, " (schema: '", matched);
        s.append("')");
        s
    }
}

} // verus!
