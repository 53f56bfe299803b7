//! The documentation server: request routing, resources and the search of
//! the documentation text.
use vstd::prelude::*;

use crate::links::trimmed_chars;
use crate::schema::strings_view;
use crate::search::{starts_with, trim_ws};
use crate::text::{
    chars_of, contains_seq, dec_chars, join_with, find_chars, lowercase, lowercase_spec, split_char,
    split_chars, str_equal, string_from_chars, usize_to_string,
};
use vstd::string::StringSliceAdditionalSpecFns;
use vstd::utf8::encode_utf8;

verus! {

// ---------------------------------------------------------------------
// Lines
// ---------------------------------------------------------------------

/// A line without the `\r` of a `\r\n` ending.
pub open spec fn strip_cr(p: Seq<char>) -> Seq<char> {
    if p.len() > 0 && p.last() == '\r' {
        p.drop_last()
    } else {
        p
    }
}

/// `str::lines`: the pieces between `\n` characters, each without a `\r`
/// before its `\n`; a final empty piece is no line.
pub open spec fn lines_of(s: Seq<char>) -> Seq<Seq<char>> {
    let parts = split_char(s, '\n');
    let body = parts.take(parts.len() - 1).map_values(|p: Seq<char>| strip_cr(p));
    if parts.last().len() == 0 {
        body
    } else {
        body.push(parts.last())
    }
}

proof fn lemma_split_nonempty(s: Seq<char>, c: char, i: int, start: int)
    requires
        0 <= start <= i,
    ensures
        crate::text::split_from(s, c, i, start).len() >= 1,
    decreases s.len() - i,
{
    if 0 <= i < s.len() {
        if s[i] == c {
            lemma_split_nonempty(s, c, i + 1, i + 1);
        } else {
            lemma_split_nonempty(s, c, i + 1, start);
        }
    }
}

/// The lines of a text.
pub fn lines(s: &str) -> (r: Vec<Vec<char>>)
    ensures
        r@.len() == lines_of(s@).len(),
        forall|k: int| 0 <= k < r@.len() ==> (#[trigger] r@[k])@ == lines_of(s@)[k],
{
    let cs = chars_of(s);
    let parts = split_chars(&cs, '\n');
    proof {
        lemma_split_nonempty(s@, '\n', 0, 0);
    }
    let ghost sp = split_char(s@, '\n');
    let n = parts.len();
    let mut out: Vec<Vec<char>> = Vec::new();
    let mut i: usize = 0;
    while i + 1 < n
        invariant
            n == parts@.len(),
            n == sp.len(),
            n >= 1,
            sp == split_char(s@, '\n'),
            forall|k: int| 0 <= k < n ==> (#[trigger] parts@[k])@ == sp[k],
            i < n,
            out@.len() == i,
            forall|k: int| 0 <= k < i ==> (#[trigger] out@[k])@ == strip_cr(sp[k]),
        decreases n - i,
    {
        let p = &parts[i];
        let mut line: Vec<char> = Vec::new();
        let m = if p.len() > 0 && p[p.len() - 1] == '\r' { p.len() - 1 } else { p.len() };
        let mut j: usize = 0;
        while j < m
            invariant
                m <= p@.len(),
                j <= m,
                line@ == p@.take(j as int),
            decreases m - j,
        {
            line.push(p[j]);
            assert(p@.take(j + 1) =~= p@.take(j as int).push(p@[j as int]));
            j += 1;
        }
        proof {
            if p@.len() > 0 && p@.last() == '\r' {
                assert(line@ =~= p@.drop_last());
            } else {
                assert(line@ =~= p@);
            }
        }
        out.push(line);
        i += 1;
    }
    let ghost body = sp.take(n - 1).map_values(|p: Seq<char>| strip_cr(p));
    assert(out@.len() == body.len());
    if parts[n - 1].len() > 0 {
        let last = parts[n - 1].clone();
        out.push(last);
    }
    out
}

// ---------------------------------------------------------------------
// Search
// ---------------------------------------------------------------------

/// At most the first `n` characters of `t`.
pub open spec fn first_chars(t: Seq<char>, n: int) -> Seq<char> {
    if t.len() <= n {
        t
    } else {
        t.take(n)
    }
}

/// A matching line as shown: trimmed, and cut to 120 characters followed
/// by `...` when its UTF-8 form is longer than 120 bytes.
pub open spec fn snippet_text(line: Seq<char>) -> Seq<char> {
    let t = trim_ws(line);
    if encode_utf8(t).len() > 120 {
        first_chars(t, 120) + "..."@
    } else {
        t
    }
}

/// One search result: `<uri>:<line number>: <snippet>`.
pub open spec fn hit_text(uri: Seq<char>, n: nat, line: Seq<char>) -> Seq<char> {
    uri + ":"@ + dec_chars(n) + ": "@ + snippet_text(line)
}

/// Results among the first `k` lines of a document: the lines whose lower
/// case form contains `q`.
pub open spec fn doc_hits(uri: Seq<char>, ls: Seq<Seq<char>>, q: Seq<char>, k: int) -> Seq<Seq<char>>
    decreases k,
{
    if k <= 0 {
        seq![]
    } else {
        doc_hits(uri, ls, q, k - 1) + if contains_seq(lowercase_spec(ls[k - 1]), q) {
            seq![hit_text(uri, k as nat, ls[k - 1])]
        } else {
            seq![]
        }
    }
}

/// Results in the first `k` documents (uri, text), in order.
pub open spec fn all_hits(docs: Seq<(Seq<char>, Seq<char>)>, q: Seq<char>, k: int) -> Seq<Seq<char>>
    decreases k,
{
    if k <= 0 {
        seq![]
    } else {
        all_hits(docs, q, k - 1) + doc_hits(docs[k - 1].0, lines_of(docs[k - 1].1), q, lines_of(docs[k - 1].1).len() as int)
    }
}

pub open spec fn docs_view(docs: Seq<(String, String)>) -> Seq<(Seq<char>, Seq<char>)> {
    Seq::new(docs.len(), |i: int| (docs[i].0@, docs[i].1@))
}

/// The answer to a documentation search: the query is taken in lower case;
/// at most 50 results are listed, one per line, with a note when there
/// were more (the note gives the number listed).
pub open spec fn search_reply(docs: Seq<(Seq<char>, Seq<char>)>, query: Seq<char>) -> Seq<char> {
    let q = lowercase_spec(query);
    if q.len() == 0 {
        "No query provided."@
    } else {
        let h = all_hits(docs, q, docs.len() as int);
        if h.len() == 0 {
            "No results found for: "@ + q
        } else if h.len() > 50 {
            "50 (showing first 50 results)\n\n"@ + join_with(h.take(50), "\n"@)
        } else {
            join_with(h, "\n"@)
        }
    }
}

fn snippet(line: &Vec<char>) -> (r: String)
    ensures
        r@ == snippet_text(line@),
{
    let s = string_from_chars(line, 0, line.len());
    let t = trimmed_chars(s.as_str());
    let ts = string_from_chars(&t, 0, t.len());
    assert(ts@ == trim_ws(line@)) by {
        assert(line@.subrange(0, line@.len() as int) =~= line@);
    }
    let st = ts.as_str();
    let blen = st.as_bytes().len();
    assert(st.spec_bytes() == encode_utf8(st@));
    assert(blen == encode_utf8(trim_ws(line@)).len());
    if blen > 120 {
        let n = if t.len() <= 120 { t.len() } else { 120 };
        let mut cut = string_from_chars(&t, 0, n);
        cut.append("...");
        proof {
            if t@.len() > 120 {
                assert(t@.subrange(0, 120) =~= t@.take(120));
            } else {
                assert(t@.subrange(0, t@.len() as int) =~= t@);
            }
        }
        cut
    } else {
        ts
    }
}

fn join_first(parts: &Vec<String>, n: usize) -> (r: String)
    requires
        n <= parts@.len(),
    ensures
        r@ == join_with(strings_view(parts@).take(n as int), "\n"@),
{
    let ghost all = strings_view(parts@);
    let mut out = String::new();
    let mut i: usize = 0;
    while i < n
        invariant
            n <= parts@.len(),
            all == strings_view(parts@),
            i <= n,
            out@ == join_with(all.take(i as int), "\n"@),
        decreases n - i,
    {
        assert(all.take(i + 1).drop_last() =~= all.take(i as int));
        assert(all.take(i + 1).last() == parts@[i as int]@);
        if i > 0 {
            out.append("\n");
        }
        out.append(parts[i].as_str());
        proof {
            if i == 0 {
                assert(out@ =~= join_with(all.take(1), "\n"@));
            }
        }
        i += 1;
    }
    out
}

/// Searches the documentation texts `(uri, text)` for a query.
pub fn search_docs(docs: &Vec<(String, String)>, query: &str) -> (r: String)
    ensures
        r@ == search_reply(docs_view(docs@), query@),
{
    let ql = lowercase(query);
    if ql.as_str().unicode_len() == 0 {
        return String::from_str("No query provided.");
    }
    let qc = chars_of(ql.as_str());
    let ghost dv = docs_view(docs@);
    let mut hits: Vec<String> = Vec::new();
    let mut d: usize = 0;
    while d < docs.len()
        invariant
            d <= docs@.len(),
            dv == docs_view(docs@),
            qc@ == lowercase_spec(query@),
            strings_view(hits@) == all_hits(dv, qc@, d as int),
        decreases docs.len() - d,
    {
        let ls = lines(docs[d].1.as_str());
        let ghost lv = lines_of(docs@[d as int].1@);
        let ghost before = strings_view(hits@);
        let mut k: usize = 0;
        while k < ls.len()
            invariant
                d < docs@.len(),
                dv == docs_view(docs@),
                lv == lines_of(docs@[d as int].1@),
                ls@.len() == lv.len(),
                forall|j: int| 0 <= j < ls@.len() ==> (#[trigger] ls@[j])@ == lv[j],
                k <= ls@.len(),
                strings_view(hits@) == before + doc_hits(docs@[d as int].0@, lv, qc@, k as int),
            decreases ls.len() - k,
        {
            let line = string_from_chars(&ls[k], 0, ls[k].len());
            assert(line@ =~= lv[k as int]);
            let low = lowercase(line.as_str());
            let lc = chars_of(low.as_str());
            let ghost prev = strings_view(hits@);
            let found = find_chars(&lc, &qc, 0).is_some();
            assert(found == contains_seq(lowercase_spec(lv[k as int]), qc@));
            if found {
                let mut h = String::from_str(docs[d].0.as_str());
                h.append(":");
                let num = usize_to_string(k + 1);
                h.append(num.as_str());
                h.append(": ");
                let sn = snippet(&ls[k]);
                h.append(sn.as_str());
                assert(h@ == hit_text(docs@[d as int].0@, (k + 1) as nat, lv[k as int]));
                hits.push(h);
                assert(strings_view(hits@) =~= prev.push(hit_text(docs@[d as int].0@, (k + 1) as nat, lv[k as int])));
            } else {
                assert(strings_view(hits@) =~= prev);
            }
            assert(strings_view(hits@) =~= before + doc_hits(docs@[d as int].0@, lv, qc@, k + 1));
            k += 1;
        }
        assert(strings_view(hits@) =~= all_hits(dv, qc@, d + 1));
        d += 1;
    }
    if hits.len() == 0 {
        let mut m = String::from_str("No results found for: ");
        m.append(ql.as_str());
        m
    } else if hits.len() > 50 {
        let mut m = String::from_str("50 (showing first 50 results)\n\n");
        let j = join_first(&hits, 50);
        m.append(j.as_str());
        m
    } else {
        let j = join_first(&hits, hits.len());
        assert(strings_view(hits@).take(hits@.len() as int) =~= strings_view(hits@));
        j
    }
}

// ---------------------------------------------------------------------
// Requests
// ---------------------------------------------------------------------

/// The requests the server knows.
#[derive(Clone, Copy, Debug, PartialEq, Eq, Structural)]
pub enum Method {
    Initialize,
    Ping,
    Initialized,
    ResourcesList,
    ResourcesRead,
    ToolsList,
    ToolsCall,
    Unknown,
}

pub open spec fn method_spec(m: Seq<char>) -> Method {
    if m == "initialize"@ {
        Method::Initialize
    } else if m == "ping"@ {
        Method::Ping
    } else if m == "notifications/initialized"@ {
        Method::Initialized
    } else if m == "resources/list"@ {
        Method::ResourcesList
    } else if m == "resources/read"@ {
        Method::ResourcesRead
    } else if m == "tools/list"@ {
        Method::ToolsList
    } else if m == "tools/call"@ {
        Method::ToolsCall
    } else {
        Method::Unknown
    }
}

/// The request a method name stands for.
pub fn route_method(m: &str) -> (r: Method)
    ensures
        r == method_spec(m@),
{
    if str_equal(m, "initialize") {
        Method::Initialize
    } else if str_equal(m, "ping") {
        Method::Ping
    } else if str_equal(m, "notifications/initialized") {
        Method::Initialized
    } else if str_equal(m, "resources/list") {
        Method::ResourcesList
    } else if str_equal(m, "resources/read") {
        Method::ResourcesRead
    } else if str_equal(m, "tools/list") {
        Method::ToolsList
    } else if str_equal(m, "tools/call") {
        Method::ToolsCall
    } else {
        Method::Unknown
    }
}

/// A request is answered when it carries an id, except the notification
/// that initialization is done.
pub fn replies(m: Method, has_id: bool) -> (r: bool)
    ensures
        r == (has_id && m != Method::Initialized),
{
    has_id && m != Method::Initialized
}

/// The tools the server offers.
#[derive(Clone, Copy, Debug, PartialEq, Eq, Structural)]
pub enum Tool {
    SearchDocs,
    ReadSource,
    RunCheck,
    RunBuild,
    ExplainError,
}

pub open spec fn tool_spec(name: Seq<char>) -> Option<Tool> {
    if name == "search_docs"@ {
        Some(Tool::SearchDocs)
    } else if name == "read_source"@ {
        Some(Tool::ReadSource)
    } else if name == "run_check"@ {
        Some(Tool::RunCheck)
    } else if name == "run_build"@ {
        Some(Tool::RunBuild)
    } else if name == "explain_error"@ {
        Some(Tool::ExplainError)
    } else {
        None
    }
}

/// The tool a name stands for; `Err` holds the message for an unknown one.
pub fn route_tool(name: &str) -> (r: Result<Tool, String>)
    ensures
        match tool_spec(name@) {
            Some(t) => r == Ok::<Tool, String>(t),
            None => r matches Err(e) && e@ == "Unknown tool: "@ + name@,
        },
{
    if str_equal(name, "search_docs") {
        Ok(Tool::SearchDocs)
    } else if str_equal(name, "read_source") {
        Ok(Tool::ReadSource)
    } else if str_equal(name, "run_check") {
        Ok(Tool::RunCheck)
    } else if str_equal(name, "run_build") {
        Ok(Tool::RunBuild)
    } else if str_equal(name, "explain_error") {
        Ok(Tool::ExplainError)
    } else {
        Err(crate::text::concat2("Unknown tool: ", name))
    }
}

// ---------------------------------------------------------------------
// Resources
// ---------------------------------------------------------------------

/// Source files are Rust; the other documents are Norg.
pub fn mime_type(uri: &str) -> (r: String)
    ensures
        r@ == if starts_with(uri@, "norgolith://src/"@) {
            "text/x-rust"@
        } else {
            "text/x-norg"@
        },
{
    let u = chars_of(uri);
    let p = chars_of("norgolith://src/");
    let is_src = crate::text::matches_chars_at(&u, &p, 0);
    proof {
        if p@.len() <= u@.len() {
            assert(u@.take(p@.len() as int) =~= u@.subrange(0, p@.len() as int));
        }
    }
    if is_src {
        String::from_str("text/x-rust")
    } else {
        String::from_str("text/x-norg")
    }
}

/// The document with a given uri (the first one), or the message for a
/// missing one.
pub fn find_resource(uris: &Vec<String>, uri: &str) -> (r: Result<usize, String>)
    ensures
        match r {
            Ok(i) => i < uris@.len() && uris@[i as int]@ == uri@ && forall|j: int|
                0 <= j < i ==> uris@[j]@ != uri@,
            Err(e) => e@ == "Resource not found: "@ + uri@ && forall|j: int|
                0 <= j < uris@.len() ==> uris@[j]@ != uri@,
        },
{
    let mut i: usize = 0;
    while i < uris.len()
        invariant
            i <= uris@.len(),
            forall|j: int| 0 <= j < i ==> uris@[j]@ != uri@,
        decreases uris.len() - i,
    {
        if str_equal(uris[i].as_str(), uri) {
            return Ok(i);
        }
        i += 1;
    }
    Err(crate::text::concat2("Resource not found: ", uri))
}

// ---------------------------------------------------------------------
// Running the site tool
// ---------------------------------------------------------------------

pub open spec fn dir_args(project_dir: Option<Seq<char>>) -> Seq<Seq<char>> {
    match project_dir {
        Some(d) => seq!["-d"@, d],
        None => seq![],
    }
}

pub open spec fn opt_view(s: Option<&str>) -> Option<Seq<char>> {
    match s {
        Some(x) => Some(x@),
        None => None,
    }
}

fn push_str(v: &mut Vec<String>, s: &str)
    ensures
        strings_view(final(v)@) == strings_view(old(v)@).push(s@),
{
    v.push(String::from_str(s));
    assert(strings_view(v@) =~= strings_view(old(v)@).push(s@));
}

/// Arguments of the check run: the project directory when given, then a
/// check with a JSON report.
pub fn check_args(project_dir: Option<&str>) -> (r: Vec<String>)
    ensures
        strings_view(r@) == dir_args(opt_view(project_dir)) + seq!["check"@, "--format"@, "json"@],
{
    let mut v: Vec<String> = Vec::new();
    match project_dir {
        Some(d) => {
            push_str(&mut v, "-d");
            push_str(&mut v, d);
        },
        None => {},
    }
    push_str(&mut v, "check");
    push_str(&mut v, "--format");
    push_str(&mut v, "json");
    assert(strings_view(v@) =~= dir_args(opt_view(project_dir)) + seq!["check"@, "--format"@, "json"@]);
    v
}

/// Arguments of the build run: the project directory when given, the
/// build, and `--no-minify` when asked.
pub fn build_args(project_dir: Option<&str>, no_minify: bool) -> (r: Vec<String>)
    ensures
        strings_view(r@) == dir_args(opt_view(project_dir)) + seq!["build"@] + if no_minify {
            seq!["--no-minify"@]
        } else {
            seq![]
        },
{
    let mut v: Vec<String> = Vec::new();
    match project_dir {
        Some(d) => {
            push_str(&mut v, "-d");
            push_str(&mut v, d);
        },
        None => {},
    }
    push_str(&mut v, "build");
    if no_minify {
        push_str(&mut v, "--no-minify");
    }
    assert(strings_view(v@) =~= dir_args(opt_view(project_dir)) + seq!["build"@] + if no_minify {
        seq!["--no-minify"@]
    } else {
        seq![]
    });
    v
}

/// The report of a build run: its exit status and trimmed output, the error
/// output only when it is not blank.
pub open spec fn build_report_spec(status: Seq<char>, stdout: Seq<char>, stderr: Seq<char>) -> Seq<char> {
    "lith build exited with "@ + status + "\n\nstdout:\n"@ + trim_ws(stdout) + if trim_ws(
        stderr,
    ).len() == 0 {
        seq![]
    } else {
        "\n\nstderr:\n"@ + trim_ws(stderr)
    }
}

pub fn build_report(status: &str, stdout: &str, stderr: &str) -> (r: String)
    ensures
        r@ == build_report_spec(status@, stdout@, stderr@),
{
    let mut text = crate::text::concat3("lith build exited with ", status, "\n\nstdout:\n");
    let o = trimmed_chars(stdout);
    let os = string_from_chars(&o, 0, o.len());
    text.append(os.as_str());
    let e = trimmed_chars(stderr);
    if e.len() > 0 {
        let es = string_from_chars(&e, 0, e.len());
        text.append("\n\nstderr:\n");
        text.append(es.as_str());
    }
    text
}

/// The report of a check run whose output is no JSON report.
pub open spec fn check_fallback_spec(status: Seq<char>, stdout: Seq<char>, stderr: Seq<char>) -> Seq<char> {
    "lith check exited with "@ + status
        + " (no JSON report; is the installed lith too old for --format json?)\n\nstdout:\n"@
        + trim_ws(stdout) + "\nstderr:\n"@ + trim_ws(stderr)
}

pub fn check_fallback_report(status: &str, stdout: &str, stderr: &str) -> (r: String)
    ensures
        r@ == check_fallback_spec(status@, stdout@, stderr@),
{
    let mut text = crate::text::concat3(
        "lith check exited with ",
        status,
        " (no JSON report; is the installed lith too old for --format json?)\n\nstdout:\n",
    );
    let o = trimmed_chars(stdout);
    let os = string_from_chars(&o, 0, o.len());
    text.append(os.as_str());
    text.append("\nstderr:\n");
    let e = trimmed_chars(stderr);
    let es = string_from_chars(&e, 0, e.len());
    text.append(es.as_str());
    text
}

} // verus!
