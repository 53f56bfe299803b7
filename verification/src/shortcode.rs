//! Shortcodes: component calls inside `@embed` HTML islands, rendered
//! through Tera and spliced back into the page in a single pass.
use vstd::prelude::*;

use crate::text::{chars_of, find_chars, find_seq_from, lemma_find_seq_from, string_from_chars};

verus! {

#[verifier::external_type_specification]
#[verifier::external_body]
pub struct ExTera(tera::Tera);

#[verifier::external_type_specification]
#[verifier::external_body]
pub struct ExContext(tera::Context);

/// Opens an island.
pub open spec fn marker_open() -> Seq<char> {
    "<!--lith:embed-->"@
}

/// Closes an island.
pub open spec fn marker_close() -> Seq<char> {
    "<!--/lith:embed-->"@
}

/// Where the island searched for from `cursor` opens, where its content
/// starts and where its closing marker stands, if there is such an island.
pub open spec fn next_island(h: Seq<char>, cursor: int) -> Option<(int, int, int)> {
    match find_seq_from(h, marker_open(), cursor) {
        None => None,
        Some(o) => {
            let cs = o + marker_open().len();
            match find_seq_from(h, marker_close(), cs) {
                None => None,
                Some(ce) => Some((o, cs, ce)),
            }
        },
    }
}

/// Contents of the closed islands from `cursor` on, in order (an unclosed
/// marker ends the scan).
pub open spec fn islands_from(h: Seq<char>, cursor: int) -> Seq<Seq<char>>
    decreases h.len() + 1 - cursor,
{
    if !(0 <= cursor <= h.len()) {
        seq![]
    } else {
        match next_island(h, cursor) {
            None => seq![],
            Some((o, cs, ce)) => {
                let next = ce + marker_close().len();
                if cursor < next <= h.len() + 1 {
                    seq![h.subrange(cs, ce)] + islands_from(h, next)
                } else {
                    seq![]
                }
            },
        }
    }
}

pub open spec fn islands(h: Seq<char>) -> Seq<Seq<char>> {
    islands_from(h, 0)
}

/// The page from `cursor` on with island `k` and the following ones
/// replaced by `outs[k]`, `outs[k + 1]`, ...: markers dropped, the text
/// between islands kept, and the rest after an unclosed marker kept as it
/// is.
pub open spec fn splice_from(h: Seq<char>, cursor: int, outs: Seq<Seq<char>>, k: int) -> Seq<char>
    decreases h.len() + 1 - cursor,
{
    if !(0 <= cursor <= h.len()) {
        seq![]
    } else {
        match find_seq_from(h, marker_open(), cursor) {
            None => h.subrange(cursor, h.len() as int),
            Some(o) => match next_island(h, cursor) {
                None => h.subrange(cursor, h.len() as int),
                Some((o2, cs, ce)) => {
                    let next = ce + marker_close().len();
                    if cursor < next <= h.len() + 1 {
                        h.subrange(cursor, o) + outs[k] + splice_from(h, next, outs, k + 1)
                    } else {
                        seq![]
                    }
                },
            },
        }
    }
}

/// Whether an island calls a component: it holds `{{ <` or `{% <`.
pub open spec fn calls_component(island: Seq<char>) -> bool {
    find_seq_from(island, "{{ <"@, 0) is Some || find_seq_from(island, "{% <"@, 0) is Some
}

/// What island `i` becomes given the rendering results: its rendering when
/// it calls a component and that succeeded, else the island unchanged.
pub open spec fn island_output(island: Seq<char>, rendered: Option<Seq<char>>) -> Seq<char> {
    if calls_component(island) {
        match rendered {
            Some(x) => x,
            None => island,
        }
    } else {
        island
    }
}

pub open spec fn opt_view(s: Option<String>) -> Option<Seq<char>> {
    match s {
        Some(x) => Some(x@),
        None => None,
    }
}

/// The outputs of all islands, `rendered[i]` being the outcome of
/// rendering island `i` (`None`: failed or not attempted).
pub open spec fn outputs(h: Seq<char>, rendered: Seq<Option<String>>) -> Seq<Seq<char>> {
    Seq::new(
        islands(h).len(),
        |i: int|
            island_output(
                islands(h)[i],
                if i < rendered.len() {
                    opt_view(rendered[i])
                } else {
                    None
                },
            ),
    )
}

proof fn lemma_next_island(h: Seq<char>, cursor: int)
    requires
        0 <= cursor <= h.len(),
    ensures
        next_island(h, cursor) matches Some((o, cs, ce)) ==> cursor <= o && cs == o
            + marker_open().len() && cs <= ce && ce + marker_close().len() <= h.len(),
        find_seq_from(h, marker_open(), cursor) matches Some(o) ==> cursor <= o && o
            + marker_open().len() <= h.len(),
{
    lemma_find_seq_from(h, marker_open(), cursor);
    match find_seq_from(h, marker_open(), cursor) {
        Some(o) => {
            lemma_find_seq_from(h, marker_close(), o + marker_open().len());
        },
        None => {},
    }
}

/// The contents of the page's islands, in order (see [`islands`]).
pub fn find_islands(html: &str) -> (r: Vec<String>)
    ensures
        r@.len() == islands(html@).len(),
        forall|i: int| 0 <= i < r@.len() ==> (#[trigger] r@[i])@ == islands(html@)[i],
{
    let h = chars_of(html);
    let open = chars_of("<!--lith:embed-->");
    let close = chars_of("<!--/lith:embed-->");
    proof {
        reveal_strlit("<!--lith:embed-->");
        reveal_strlit("<!--/lith:embed-->");
    }
    let mut out: Vec<String> = Vec::new();
    let mut cursor: usize = 0;
    let mut done = false;
    while !done && cursor <= h.len()
        invariant
            h@ == html@,
            open@ == marker_open(),
            close@ == marker_close(),
            open@.len() == 17,
            close@.len() == 18,
            cursor <= h@.len() + 1,
            !done ==> cursor <= h@.len(),
            islands(html@) == Seq::new(out@.len(), |i: int| out@[i]@) + if done {
                seq![]
            } else {
                islands_from(html@, cursor as int)
            },
        decreases h.len() + 1 - cursor, if done {
            0int
        } else {
            1int
        },
    {
        let ghost before = Seq::new(out@.len(), |i: int| out@[i]@);
        proof {
            lemma_next_island(html@, cursor as int);
        }
        match find_chars(&h, &open, cursor) {
            None => {
                done = true;
            },
            Some(o) => {
                let cs = o + open.len();
                match find_chars(&h, &close, cs) {
                    None => {
                        done = true;
                    },
                    Some(ce) => {
                        let island = string_from_chars(&h, cs, ce);
                        out.push(island);
                        assert(Seq::new(out@.len(), |i: int| out@[i]@) =~= before.push(island@));
                        cursor = ce + close.len();
                    },
                }
            },
        }
    }
    assert(Seq::new(out@.len(), |i: int| out@[i]@) + seq![] =~= Seq::new(
        out@.len(),
        |i: int| out@[i]@,
    ));
    out
}


fn calls_component_exec(island: &str) -> (r: bool)
    ensures
        r == calls_component(island@),
{
    let cs = chars_of(island);
    let a = chars_of("{{ <");
    let b = chars_of("{% <");
    find_chars(&cs, &a, 0).is_some() || find_chars(&cs, &b, 0).is_some()
}

fn push_range(out: &mut String, h: &Vec<char>, a: usize, e: usize)
    requires
        a <= e <= h@.len(),
    ensures
        final(out)@ == old(out)@ + h@.subrange(a as int, e as int),
{
    let piece = string_from_chars(h, a, e);
    out.append(piece.as_str());
}

/// The page with each island replaced by its output (see [`outputs`]):
/// `rendered[i]` is the outcome of rendering island `i`.
pub fn splice_islands(html: &str, rendered: &Vec<Option<String>>) -> (r: String)
    ensures
        r@ == splice_from(html@, 0, outputs(html@, rendered@), 0),
{
    let h = chars_of(html);
    let open = chars_of("<!--lith:embed-->");
    let close = chars_of("<!--/lith:embed-->");
    proof {
        reveal_strlit("<!--lith:embed-->");
        reveal_strlit("<!--/lith:embed-->");
    }
    let ghost outs = outputs(html@, rendered@);
    let ghost isl = islands(html@);
    let mut result = String::new();
    let mut cursor: usize = 0;
    let mut k: usize = 0;
    let mut done = false;
    assert(isl.skip(0) =~= isl);
    while !done
        invariant
            h@ == html@,
            open@ == marker_open(),
            close@ == marker_close(),
            open@.len() == 17,
            close@.len() == 18,
            outs == outputs(html@, rendered@),
            isl == islands(html@),
            !done ==> cursor <= h@.len(),
            k <= cursor,
            !done ==> k <= isl.len() && isl.skip(k as int) == islands_from(html@, cursor as int),
            splice_from(html@, 0, outs, 0) == result@ + if done {
                seq![]
            } else {
                splice_from(html@, cursor as int, outs, k as int)
            },
        decreases h.len() + 1 - cursor, if done {
            0int
        } else {
            1int
        },
    {
        proof {
            lemma_next_island(html@, cursor as int);
        }
        let ghost before = result@;
        match find_chars(&h, &open, cursor) {
            None => {
                push_range(&mut result, &h, cursor, h.len());
                done = true;
            },
            Some(o) => {
                let cs = o + open.len();
                match find_chars(&h, &close, cs) {
                    None => {
                        push_range(&mut result, &h, cursor, h.len());
                        done = true;
                    },
                    Some(ce) => {
                        let next = ce + close.len();
                        proof {
                            assert(isl.skip(k as int) == seq![html@.subrange(cs as int, ce as int)]
                                + islands_from(html@, next as int));
                            assert(isl.skip(k as int)[0] == isl[k as int]);
                            assert(isl.skip(k + 1) =~= isl.skip(k as int).drop_first());
                            assert(isl.skip(k as int).drop_first() =~= islands_from(
                                html@,
                                next as int,
                            ));
                        }
                        push_range(&mut result, &h, cursor, o);
                        let island = string_from_chars(&h, cs, ce);
                        let rend: Option<&String> = if k < rendered.len() {
                            match &rendered[k] {
                                Some(x) => Some(x),
                                None => None,
                            }
                        } else {
                            None
                        };
                        if calls_component_exec(island.as_str()) {
                            match rend {
                                Some(x) => result.append(x.as_str()),
                                None => result.append(island.as_str()),
                            }
                        } else {
                            result.append(island.as_str());
                        }
                        assert(result@ =~= before + html@.subrange(cursor as int, o as int)
                            + outs[k as int]);
                        cursor = next;
                        k += 1;
                    },
                }
            },
        }
    }
    assert(result@ + seq![] =~= result@);
    result
}

/// Renders one island with `Tera::render_str` (autoescape off); `None` when
/// Tera reports an error. Nothing is claimed of the output: it depends on
/// the templates registered with `tera` and on `context`.
#[verifier::external_body]
fn render_island(tera: &tera::Tera, island: &str, context: &tera::Context) -> (r: Option<String>) {
    match tera.render_str(island, context, false) {
        Ok(s) => Some(s),
        Err(_) => None,
    }
}

/// Renders the component calls of every `@embed` island of `html` and
/// splices the results back, in one pass: an island without a component
/// call, or whose rendering fails, is kept as it is; text outside islands
/// is kept; markers are dropped; an unclosed marker leaves the rest as it
/// is.
pub fn process(html: &str, tera: &tera::Tera, context: &tera::Context) -> (r: String)
    ensures
        exists|rendered: Seq<Option<String>>|
            rendered.len() == islands(html@).len() && r@ == splice_from(
                html@,
                0,
                outputs(html@, rendered),
                0,
            ),
{
    let isl = find_islands(html);
    let mut rendered: Vec<Option<String>> = Vec::new();
    let mut i: usize = 0;
    while i < isl.len()
        invariant
            i <= isl@.len(),
            rendered@.len() == i,
        decreases isl.len() - i,
    {
        if calls_component_exec(isl[i].as_str()) {
            rendered.push(render_island(tera, isl[i].as_str(), context));
        } else {
            rendered.push(None);
        }
        i += 1;
    }
    splice_islands(html, &rendered)
}

/// A page without an opening marker comes back unchanged, whatever the
/// rendering outcomes.
pub proof fn lemma_no_marker_passthrough(h: Seq<char>, outs: Seq<Seq<char>>)
    requires
        find_seq_from(h, marker_open(), 0) is None,
    ensures
        splice_from(h, 0, outs, 0) == h,
{
    assert(h.subrange(0, h.len() as int) =~= h);
}

/// Islands without component calls are only unwrapped: their content
/// stands in the output as it stood between the markers.
pub proof fn lemma_plain_islands_unwrapped(h: Seq<char>, rendered: Seq<Option<String>>, i: int)
    requires
        0 <= i < islands(h).len(),
        !calls_component(islands(h)[i]),
    ensures
        outputs(h, rendered)[i] == islands(h)[i],
{
}

} // verus!
