//! Reporting for `lith check`: error and warning counts, structured
//! diagnostics for tooling, and GitHub Actions workflow annotations.
use vstd::prelude::*;
use vstd::string::StringSliceAdditionalSpecFns;
use vstd::utf8::{decode_utf8, encode_utf8, is_char_boundary, is_continuation_byte, valid_utf8};

use crate::pattern::{regex_replace_all, regex_replaced, regex_valid};
use crate::schema::{
    code_of, help_of, is_warning_spec, message_of, opt_str_view, span_of, ErrorV,
    ValidationError,
};
use crate::text::{chars_of, dec_chars, join_with, string_push, usize_to_string};

verus! {

// ---------------------------------------------------------------------
// Output format
// ---------------------------------------------------------------------

/// Output format of diagnostics.
#[derive(Clone, Copy, Debug, PartialEq, Eq, Structural)]
pub enum CheckFormat {
    /// Human-readable rendering (default).
    Human,
    /// Structured JSON for tooling.
    Json,
    /// GitHub Actions workflow commands (inline PR annotations).
    Github,
}

pub open spec fn format_name(f: CheckFormat) -> Seq<char> {
    match f {
        CheckFormat::Human => "human"@,
        CheckFormat::Json => "json"@,
        CheckFormat::Github => "github"@,
    }
}

impl CheckFormat {
    /// The format's name on the command line.
    pub fn as_str(&self) -> (r: &'static str)
        ensures
            r@ == format_name(*self),
    {
        match self {
            CheckFormat::Human => "human",
            CheckFormat::Json => "json",
            CheckFormat::Github => "github",
        }
    }
}

impl Default for CheckFormat {
    fn default() -> (r: Self)
        ensures
            r == CheckFormat::Human,
    {
        CheckFormat::Human
    }
}

// ---------------------------------------------------------------------
// Failures and counts
// ---------------------------------------------------------------------

/// Why a content file failed.
pub enum FailureKind {
    /// Its metadata broke the content schema.
    Validation(Vec<ValidationError>),
    /// Its metadata block could not be read at all: the report's text and
    /// help.
    Extract { message: String, help: Option<String> },
}

/// A content file that failed the check.
pub struct FileFailure {
    pub path: String,
    pub content: String,
    pub kind: FailureKind,
}

pub open spec fn errors_view(v: Seq<ValidationError>) -> Seq<ErrorV> {
    Seq::new(v.len(), |i: int| v[i]@)
}

/// Number of errors (not warnings) among `e`.
pub open spec fn count_errors(e: Seq<ErrorV>) -> nat
    decreases e.len(),
{
    if e.len() == 0 {
        0
    } else {
        count_errors(e.drop_last()) + if is_warning_spec(e.last()) {
            0nat
        } else {
            1nat
        }
    }
}

/// Number of warnings among `e`.
pub open spec fn count_warns(e: Seq<ErrorV>) -> nat
    decreases e.len(),
{
    if e.len() == 0 {
        0
    } else {
        count_warns(e.drop_last()) + if is_warning_spec(e.last()) {
            1nat
        } else {
            0nat
        }
    }
}

/// Errors a failure counts for: its non-warning diagnostics, or one when
/// the metadata could not be read.
pub open spec fn failure_errors(f: FileFailure) -> nat {
    match f.kind {
        FailureKind::Validation(errors) => count_errors(errors_view(errors@)),
        FailureKind::Extract { .. } => 1,
    }
}

pub open spec fn failure_warnings(f: FileFailure) -> nat {
    match f.kind {
        FailureKind::Validation(errors) => count_warns(errors_view(errors@)),
        FailureKind::Extract { .. } => 0,
    }
}

pub open spec fn total_errors(fs: Seq<FileFailure>) -> nat
    decreases fs.len(),
{
    if fs.len() == 0 {
        0
    } else {
        total_errors(fs.drop_last()) + failure_errors(fs.last())
    }
}

pub open spec fn total_warnings(fs: Seq<FileFailure>) -> nat
    decreases fs.len(),
{
    if fs.len() == 0 {
        0
    } else {
        total_warnings(fs.drop_last()) + failure_warnings(fs.last())
    }
}

/// Every diagnostic counts either as an error or as a warning, never both.
pub proof fn lemma_counts_bounded(e: Seq<ErrorV>)
    ensures
        count_errors(e) <= e.len(),
        count_warns(e) <= e.len(),
        count_errors(e) + count_warns(e) == e.len(),
    decreases e.len(),
{
    if e.len() > 0 {
        lemma_counts_bounded(e.drop_last());
    }
}

/// A missing field, a type mismatch or a broken constraint fails a file;
/// failed rule conditions and unknown fields alone never do: the count of
/// errors is positive exactly when one diagnostic of the first three kinds
/// is among them, and each diagnostic counts as an error or as a warning.
pub proof fn lemma_which_diagnostics_fail(e: Seq<ErrorV>)
    ensures
        count_errors(e) > 0 <==> exists|i: int|
            0 <= i < e.len() && (#[trigger] e[i] is MissingField || e[i] is TypeMismatch
                || e[i] is ConstraintViolation),
        count_errors(e) + count_warns(e) == e.len(),
    decreases e.len(),
{
    lemma_counts_bounded(e);
    if e.len() > 0 {
        let init = e.drop_last();
        lemma_which_diagnostics_fail(init);
        if exists|i: int|
            0 <= i < init.len() && (#[trigger] init[i] is MissingField || init[i] is TypeMismatch
                || init[i] is ConstraintViolation) {
            let i = choose|i: int|
                0 <= i < init.len() && (#[trigger] init[i] is MissingField || init[i] is TypeMismatch
                    || init[i] is ConstraintViolation);
            assert(e[i] == init[i]);
        }
        if exists|i: int|
            0 <= i < e.len() && (#[trigger] e[i] is MissingField || e[i] is TypeMismatch
                || e[i] is ConstraintViolation) {
            let i = choose|i: int|
                0 <= i < e.len() && (#[trigger] e[i] is MissingField || e[i] is TypeMismatch
                    || e[i] is ConstraintViolation);
            if i < init.len() {
                assert(init[i] == e[i]);
            } else {
                assert(e[i] == e.last());
            }
        }
    }
}

/// The errors and the warnings among `errors`.
fn tally(errors: &Vec<ValidationError>) -> (r: (usize, usize))
    ensures
        r.0 == count_errors(errors_view(errors@)),
        r.1 == count_warns(errors_view(errors@)),
{
    let ghost ev = errors_view(errors@);
    let mut n_err: usize = 0;
    let mut n_warn: usize = 0;
    let mut i: usize = 0;
    while i < errors.len()
        invariant
            i <= errors@.len(),
            ev == errors_view(errors@),
            n_err == count_errors(ev.take(i as int)),
            n_warn == count_warns(ev.take(i as int)),
        decreases errors.len() - i,
    {
        proof {
            assert(ev.take(i + 1).drop_last() =~= ev.take(i as int));
            assert(ev.take(i + 1).last() == errors@[i as int]@);
            lemma_counts_bounded(ev.take(i as int));
        }
        if errors[i].is_warning() {
            n_warn += 1;
        } else {
            n_err += 1;
        }
        i += 1;
    }
    assert(ev.take(i as int) =~= ev);
    (n_err, n_warn)
}

/// A file fails the check when one of its diagnostics is an error
/// (warnings alone let it pass).
pub fn fails_check(errors: &Vec<ValidationError>) -> (r: bool)
    ensures
        r == (count_errors(errors_view(errors@)) > 0),
{
    let (n_err, _) = tally(errors);
    n_err > 0
}

/// What the check prints when every file passed.
pub fn passed_message(total: usize) -> (r: String)
    ensures
        r@ == "All "@ + crate::text::dec_chars(total as nat) + " content file(s) passed schema validation"@,
{
    let n = crate::text::usize_to_string(total);
    crate::text::concat3("All ", n.as_str(), " content file(s) passed schema validation")
}

/// The report of a failed check: how many files failed and how many errors
/// they hold.
pub fn failed_message(files: usize, errors: usize) -> (r: String)
    ensures
        r@ == "Schema validation failed: "@ + crate::text::dec_chars(files as nat)
            + " file(s) failed ("@ + crate::text::dec_chars(errors as nat) + " error(s) total)"@,
{
    let f = crate::text::usize_to_string(files);
    let e = crate::text::usize_to_string(errors);
    let mut m = crate::text::concat3("Schema validation failed: ", f.as_str(), " file(s) failed (");
    m.append(e.as_str());
    m.append(" error(s) total)");
    m
}

impl FileFailure {
    /// Number of errors this failure counts for (warnings aside).
    pub fn error_count(&self) -> (r: usize)
        ensures
            r == failure_errors(*self),
    {
        match &self.kind {
            FailureKind::Validation(errors) => tally(errors).0,
            FailureKind::Extract { .. } => 1,
        }
    }
}

/// Number of warnings over all failures.
pub fn count_warnings(failures: &[FileFailure]) -> (r: usize)
    requires
        total_warnings(failures@) <= usize::MAX,
    ensures
        r == total_warnings(failures@),
{
    let mut n: usize = 0;
    let mut i: usize = 0;
    while i < failures.len()
        invariant
            i <= failures@.len(),
            total_warnings(failures@) <= usize::MAX,
            n == total_warnings(failures@.take(i as int)),
        decreases failures.len() - i,
    {
        proof {
            assert(failures@.take(i + 1).drop_last() =~= failures@.take(i as int));
            lemma_totals_prefix(failures@, i + 1);
        }
        let w = match &failures[i].kind {
            FailureKind::Validation(errors) => tally(errors).1,
            FailureKind::Extract { .. } => 0,
        };
        n = n + w;
        i += 1;
    }
    assert(failures@.take(i as int) =~= failures@);
    n
}

/// Totals over a prefix are at most the totals over the whole.
proof fn lemma_totals_prefix(fs: Seq<FileFailure>, k: int)
    requires
        0 <= k <= fs.len(),
    ensures
        total_errors(fs.take(k)) <= total_errors(fs),
        total_warnings(fs.take(k)) <= total_warnings(fs),
    decreases fs.len() - k,
{
    if k < fs.len() {
        lemma_totals_prefix(fs, k + 1);
        assert(fs.take(k + 1).drop_last() =~= fs.take(k));
    } else {
        assert(fs.take(k) =~= fs);
    }
}

/// Number of errors over all failures.
pub fn total_error_count(failures: &[FileFailure]) -> (r: usize)
    requires
        total_errors(failures@) <= usize::MAX,
    ensures
        r == total_errors(failures@),
{
    let mut n: usize = 0;
    let mut i: usize = 0;
    while i < failures.len()
        invariant
            i <= failures@.len(),
            total_errors(failures@) <= usize::MAX,
            n == total_errors(failures@.take(i as int)),
        decreases failures.len() - i,
    {
        proof {
            assert(failures@.take(i + 1).drop_last() =~= failures@.take(i as int));
            lemma_totals_prefix(failures@, i + 1);
        }
        n = n + failures[i].error_count();
        i += 1;
    }
    assert(failures@.take(i as int) =~= failures@);
    n
}

// ---------------------------------------------------------------------
// Positions
// ---------------------------------------------------------------------

/// Occurrences of byte `x` in `b`.
pub open spec fn count_byte(b: Seq<u8>, x: u8) -> nat
    decreases b.len(),
{
    if b.len() == 0 {
        0
    } else {
        count_byte(b.drop_last(), x) + if b.last() == x {
            1nat
        } else {
            0nat
        }
    }
}

/// Index of the last occurrence of `x` in `b`.
pub open spec fn last_index_of(b: Seq<u8>, x: u8) -> Option<int>
    decreases b.len(),
{
    if b.len() == 0 {
        None
    } else if b.last() == x {
        Some(b.len() - 1)
    } else {
        last_index_of(b.drop_last(), x)
    }
}

/// Bytes of `b` that begin a character (are no UTF-8 continuation byte).
pub open spec fn count_lead(b: Seq<u8>) -> nat
    decreases b.len(),
{
    if b.len() == 0 {
        0
    } else {
        count_lead(b.drop_last()) + if is_continuation_byte(b.last()) {
            0nat
        } else {
            1nat
        }
    }
}

/// 1-based line and column of byte `offset` of `b` (clamped to its end):
/// lines counted by newline bytes before it, the column by the characters
/// between the last of those and the offset.
pub open spec fn line_col_spec(b: Seq<u8>, offset: int) -> (nat, nat) {
    let off = if offset < b.len() {
        offset
    } else {
        b.len() as int
    };
    let pre = b.subrange(0, off);
    let start = match last_index_of(pre, 10) {
        Some(i) => i + 1,
        None => 0,
    };
    (count_byte(pre, 10) + 1, count_lead(b.subrange(start, off)) + 1)
}

fn is_continuation(b: u8) -> (r: bool)
    ensures
        r == is_continuation_byte(b),
{
    0x80 <= b && b <= 0xbf
}

/// 1-based (line, column) of a byte offset into `content`, columns counted
/// in characters so that multi-byte text reports sane positions.
pub fn line_col(content: &str, offset: usize) -> (r: (usize, usize))
    requires
        content.spec_bytes().len() < usize::MAX,
        offset >= content.spec_bytes().len() || is_char_boundary(
            content.spec_bytes(),
            offset as int,
        ),
    ensures
        (r.0 as nat, r.1 as nat) == line_col_spec(content.spec_bytes(), offset as int),
{
    let b = content.as_bytes();
    let n = b.len();
    let off = if offset < n {
        offset
    } else {
        n
    };
    let ghost bs = b@;
    let mut line: usize = 1;
    let mut start: usize = 0;
    let mut col: usize = 1;
    let mut i: usize = 0;
    while i < off
        invariant
            off <= n == bs.len(),
            n < usize::MAX,
            bs == b@,
            i <= off,
            start <= i,
            line == count_byte(bs.subrange(0, i as int), 10) + 1,
            start == (match last_index_of(bs.subrange(0, i as int), 10) {
                Some(k) => k + 1,
                None => 0,
            }),
            col == count_lead(bs.subrange(start as int, i as int)) + 1,
            line <= i + 1,
            col <= i + 1,
        decreases off - i,
    {
        let ghost pre = bs.subrange(0, i as int);
        let ghost seg = bs.subrange(start as int, i as int);
        assert(bs.subrange(0, i + 1).drop_last() =~= pre);
        assert(bs.subrange(start as int, i + 1).drop_last() =~= seg);
        if b[i] == 10 {
            line += 1;
            start = i + 1;
            col = 1;
            assert(bs.subrange(start as int, i + 1) =~= Seq::<u8>::empty());
        } else if is_continuation(b[i]) {
        } else {
            col += 1;
        }
        i += 1;
    }
    (line, col)
}

/// Counting the bytes that begin a character counts the characters of
/// valid UTF-8 text: a column reported by [`line_col`] is a count of
/// characters, not of bytes.
pub proof fn lemma_count_lead_is_char_count(b: Seq<u8>)
    requires
        valid_utf8(b),
    ensures
        count_lead(b) == decode_utf8(b).len(),
    decreases b.len(),
{
    if b.len() > 0 {
        assert(vstd::utf8::valid_first_scalar(b));
        assert(valid_utf8(vstd::utf8::pop_first_scalar(b)));
        let len = vstd::utf8::length_of_first_scalar(b);
        assert(1 <= len <= 4 && len <= b.len());
        assert(!is_continuation_byte(b[0]));
        assert(decode_utf8(b).len() == 1 + decode_utf8(vstd::utf8::pop_first_scalar(b)).len());
        let head = b.subrange(0, len);
        let tail = b.subrange(len, b.len() as int);
        assert(head + tail =~= b);
        lemma_count_lead_concat(head, tail);
        lemma_count_lead_is_char_count(tail);
        let h1 = head.subrange(0, 1);
        assert(h1.drop_last() =~= Seq::<u8>::empty());
        assert(count_lead(h1.drop_last()) == 0);
        assert(h1.last() == b[0]);
        assert(count_lead(h1) == 1);
        if len >= 2 {
            let h2 = head.subrange(0, 2);
            assert(h2.drop_last() =~= h1);
            assert(h2.last() == b[1] && is_continuation_byte(b[1]));
            assert(count_lead(h2) == 1);
            if len >= 3 {
                let h3 = head.subrange(0, 3);
                assert(h3.drop_last() =~= h2);
                assert(h3.last() == b[2] && is_continuation_byte(b[2]));
                assert(count_lead(h3) == 1);
                if len >= 4 {
                    let h4 = head.subrange(0, 4);
                    assert(h4.drop_last() =~= h3);
                    assert(h4.last() == b[3] && is_continuation_byte(b[3]));
                    assert(count_lead(h4) == 1);
                    assert(h4 =~= head);
                } else {
                    assert(h3 =~= head);
                }
            } else {
                assert(h2 =~= head);
            }
        } else {
            assert(h1 =~= head);
        }
        assert(head.subrange(0, len) =~= head);
    }
}

proof fn lemma_count_lead_concat(a: Seq<u8>, b: Seq<u8>)
    ensures
        count_lead(a + b) == count_lead(a) + count_lead(b),
    decreases b.len(),
{
    if b.len() == 0 {
        assert(a + b =~= a);
    } else {
        lemma_count_lead_concat(a, b.drop_last());
        assert((a + b).drop_last() =~= a + b.drop_last());
    }
}

// ---------------------------------------------------------------------
// Structured diagnostics
// ---------------------------------------------------------------------

/// One diagnostic as tooling receives it.
pub struct JsonDiagnostic {
    pub file: String,
    pub code: Option<String>,
    pub severity: &'static str,
    pub message: String,
    pub help: Option<String>,
    pub line: Option<usize>,
    pub column: Option<usize>,
}

/// Mathematical form of [`JsonDiagnostic`].
pub struct DiagV {
    pub file: Seq<char>,
    pub code: Option<Seq<char>>,
    pub severity: Seq<char>,
    pub message: Seq<char>,
    pub help: Option<Seq<char>>,
    pub line: Option<usize>,
    pub column: Option<usize>,
}

impl View for JsonDiagnostic {
    type V = DiagV;

    open spec fn view(&self) -> DiagV {
        DiagV {
            file: self.file@,
            code: opt_str_view(self.code),
            severity: self.severity@,
            message: self.message@,
            help: opt_str_view(self.help),
            line: self.line,
            column: self.column,
        }
    }
}

/// Counts of a check run.
#[derive(Clone, Copy, Debug, PartialEq, Eq, Structural)]
pub struct Summary {
    pub files: usize,
    pub errors: usize,
    pub warnings: usize,
}

/// Everything a JSON report holds.
pub struct JsonOutput {
    pub summary: Summary,
    pub diagnostics: Vec<JsonDiagnostic>,
}

/// Matches an ANSI SGR escape sequence.
pub open spec fn sgr_pattern() -> Seq<char> {
    "\\x1b\\[[0-9;]*[A-Za-z]"@
}

/// `s` without ANSI SGR escape sequences.
pub open spec fn ansi_stripped(s: Seq<char>) -> Seq<char> {
    if regex_valid(sgr_pattern()) {
        regex_replaced(sgr_pattern(), s, ""@)
    } else {
        s
    }
}

/// Removes ANSI SGR escape sequences, so that machine-readable output stays
/// clean of terminal colouring.
pub fn strip_ansi(s: &str) -> (r: String)
    ensures
        r@ == ansi_stripped(s@),
{
    match regex_replace_all("\\x1b\\[[0-9;]*[A-Za-z]", s, "") {
        Some(x) => x,
        None => String::from_str(s),
    }
}

pub open spec fn opt_stripped(s: Option<Seq<char>>) -> Option<Seq<char>> {
    match s {
        Some(x) => Some(ansi_stripped(x)),
        None => None,
    }
}

/// The diagnostic for validation error `e` of file `file` whose bytes are
/// `content`.
pub open spec fn diag_spec(file: Seq<char>, content: Seq<u8>, e: ErrorV) -> DiagV {
    let pos = match span_of(e) {
        Some(sp) => Some(line_col_spec(content, sp.offset as int)),
        None => None,
    };
    DiagV {
        file,
        code: Some(code_of(e)),
        severity: if is_warning_spec(e) {
            "warning"@
        } else {
            "error"@
        },
        message: ansi_stripped(message_of(e)),
        help: Some(ansi_stripped(help_of(e))),
        line: match pos {
            Some(p) => Some(p.0 as usize),
            None => None,
        },
        column: match pos {
            Some(p) => Some(p.1 as usize),
            None => None,
        },
    }
}

/// The span of `e`, if any, starts at a character boundary of `content` or
/// past its end.
pub open spec fn span_in_text(content: Seq<u8>, e: ErrorV) -> bool {
    span_of(e) matches Some(sp) ==> content.len() < usize::MAX && (sp.offset >= content.len()
        || is_char_boundary(content, sp.offset as int))
}

/// The diagnostic for one validation error of a failed file.
pub fn to_json_diagnostic(failure: &FileFailure, error: &ValidationError) -> (r: JsonDiagnostic)
    requires
        span_in_text(encode_utf8(failure.content@), error@),
    ensures
        r@ == diag_spec(failure.path@, encode_utf8(failure.content@), error@),
{
    let (line, column) = match error.span() {
        Some(sp) => {
            let (l, c) = line_col(failure.content.as_str(), sp.offset);
            (Some(l), Some(c))
        },
        None => (None, None),
    };
    let message = error.message();
    let help = error.help();
    JsonDiagnostic {
        file: failure.path.clone(),
        code: Some(String::from_str(error.code())),
        severity: if error.is_warning() {
            "warning"
        } else {
            "error"
        },
        message: strip_ansi(message.as_str()),
        help: Some(strip_ansi(help.as_str())),
        line,
        column,
    }
}

/// The diagnostics of one failure, in order.
pub open spec fn failure_diags(f: FileFailure) -> Seq<DiagV> {
    match f.kind {
        FailureKind::Validation(errors) => Seq::new(
            errors@.len(),
            |i: int| diag_spec(f.path@, encode_utf8(f.content@), errors@[i]@),
        ),
        FailureKind::Extract { message, help } => seq![
            DiagV {
                file: f.path@,
                code: None,
                severity: "error"@,
                message: ansi_stripped(message@),
                help: opt_stripped(opt_str_view(help)),
                line: None,
                column: None,
            },
        ],
    }
}

/// The diagnostics of all failures, in order.
pub open spec fn all_diags(fs: Seq<FileFailure>) -> Seq<DiagV>
    decreases fs.len(),
{
    if fs.len() == 0 {
        seq![]
    } else {
        all_diags(fs.drop_last()) + failure_diags(fs.last())
    }
}

/// Every span of a failure's errors is a position in its content.
pub open spec fn spans_in_text(f: FileFailure) -> bool {
    match f.kind {
        FailureKind::Validation(errors) => forall|i: int|
            0 <= i < errors@.len() ==> span_in_text(
                encode_utf8(f.content@),
                (#[trigger] errors@[i])@,
            ),
        FailureKind::Extract { .. } => true,
    }
}

pub open spec fn diags_view(d: Seq<JsonDiagnostic>) -> Seq<DiagV> {
    Seq::new(d.len(), |i: int| d[i]@)
}

fn strip_opt(s: &Option<String>) -> (r: Option<String>)
    ensures
        opt_str_view(r) == opt_stripped(opt_str_view(*s)),
{
    match s {
        Some(x) => Some(strip_ansi(x.as_str())),
        None => None,
    }
}

/// The JSON report of a run over `total` files.
pub fn collect_json_output(failures: &[FileFailure], total: usize) -> (r: JsonOutput)
    requires
        forall|i: int| 0 <= i < failures@.len() ==> spans_in_text(#[trigger] failures@[i]),
        total_errors(failures@) <= usize::MAX,
        total_warnings(failures@) <= usize::MAX,
    ensures
        diags_view(r.diagnostics@) == all_diags(failures@),
        r.summary == (Summary {
            files: total,
            errors: total_errors(failures@) as usize,
            warnings: total_warnings(failures@) as usize,
        }),
{
    let mut diagnostics: Vec<JsonDiagnostic> = Vec::new();
    let mut i: usize = 0;
    assert(all_diags(failures@.take(0)) =~= seq![]);
    while i < failures.len()
        invariant
            i <= failures@.len(),
            forall|k: int| 0 <= k < failures@.len() ==> spans_in_text(#[trigger] failures@[k]),
            diags_view(diagnostics@) == all_diags(failures@.take(i as int)),
        decreases failures.len() - i,
    {
        let failure = &failures[i];
        assert(spans_in_text(failures@[i as int]));
        let ghost before = diags_view(diagnostics@);
        assert(failures@.take(i + 1).drop_last() =~= failures@.take(i as int));
        match &failure.kind {
            FailureKind::Validation(errors) => {
                let mut j: usize = 0;
                assert(failure_diags(*failure) == Seq::new(
                    errors@.len(),
                    |k: int| diag_spec(failure.path@, encode_utf8(failure.content@), errors@[k]@),
                ));
                while j < errors.len()
                    invariant
                        j <= errors@.len(),
                        failure.kind == FailureKind::Validation(*errors),
                        spans_in_text(*failure),
                        diags_view(diagnostics@) == before + failure_diags(*failure).take(
                            j as int,
                        ),
                    decreases errors.len() - j,
                {
                    assert(span_in_text(encode_utf8(failure.content@), errors@[j as int]@));
                    let d = to_json_diagnostic(failure, &errors[j]);
                    assert(d@ == failure_diags(*failure)[j as int]);
                    let ghost mid = diags_view(diagnostics@);
                    diagnostics.push(d);
                    assert(diags_view(diagnostics@) =~= mid.push(d@));
                    assert(diags_view(diagnostics@) =~= before + failure_diags(*failure).take(
                        j + 1,
                    ));
                    j += 1;
                }
                assert(failure_diags(*failure).take(j as int) =~= failure_diags(*failure));
            },
            FailureKind::Extract { message, help } => {
                diagnostics.push(
                    JsonDiagnostic {
                        file: failure.path.clone(),
                        code: None,
                        severity: "error",
                        message: strip_ansi(message.as_str()),
                        help: strip_opt(help),
                        line: None,
                        column: None,
                    },
                );
                assert(diags_view(diagnostics@) =~= before + failure_diags(*failure));
            },
        }
        i += 1;
    }
    assert(failures@.take(i as int) =~= failures@);
    let errors = total_error_count(failures);
    let warnings = count_warnings(failures);
    JsonOutput { summary: Summary { files: total, errors, warnings }, diagnostics }
}

// ---------------------------------------------------------------------
// GitHub Actions annotations
// ---------------------------------------------------------------------

/// A character as a workflow command writes it: `%`, CR and LF (in a
/// property also `:` and `,`) percent-encoded.
pub open spec fn escape_char(c: char, property: bool) -> Seq<char> {
    if c == '%' {
        seq!['%', '2', '5']
    } else if c == '\r' {
        seq!['%', '0', 'D']
    } else if c == '\n' {
        seq!['%', '0', 'A']
    } else if property && c == ':' {
        seq!['%', '3', 'A']
    } else if property && c == ',' {
        seq!['%', '2', 'C']
    } else {
        seq![c]
    }
}

pub open spec fn escape_seq(s: Seq<char>, property: bool) -> Seq<char>
    decreases s.len(),
{
    if s.len() == 0 {
        seq![]
    } else {
        escape_seq(s.drop_last(), property) + escape_char(s.last(), property)
    }
}

fn escape(value: &str, property: bool) -> (r: String)
    ensures
        r@ == escape_seq(value@, property),
{
    let cs = chars_of(value);
    let mut out = String::new();
    let mut i: usize = 0;
    assert(value@.take(0) =~= Seq::<char>::empty());
    while i < cs.len()
        invariant
            i <= cs@.len(),
            cs@ == value@,
            out@ == escape_seq(value@.take(i as int), property),
        decreases cs.len() - i,
    {
        let c = cs[i];
        assert(value@.take(i + 1).drop_last() =~= value@.take(i as int));
        assert(value@.take(i + 1).last() == c);
        let ghost before = out@;
        if c == '%' {
            string_push(&mut out, '%');
            string_push(&mut out, '2');
            string_push(&mut out, '5');
        } else if c == '\r' {
            string_push(&mut out, '%');
            string_push(&mut out, '0');
            string_push(&mut out, 'D');
        } else if c == '\n' {
            string_push(&mut out, '%');
            string_push(&mut out, '0');
            string_push(&mut out, 'A');
        } else if property && c == ':' {
            string_push(&mut out, '%');
            string_push(&mut out, '3');
            string_push(&mut out, 'A');
        } else if property && c == ',' {
            string_push(&mut out, '%');
            string_push(&mut out, '2');
            string_push(&mut out, 'C');
        } else {
            string_push(&mut out, c);
        }
        assert(out@ =~= before + escape_char(c, property));
        i += 1;
    }
    assert(value@.take(i as int) =~= value@);
    out
}

/// Escapes a workflow-command property value.
pub fn escape_property(value: &str) -> (r: String)
    ensures
        r@ == escape_seq(value@, true),
{
    escape(value, true)
}

/// Escapes a workflow-command data segment.
pub fn escape_data(value: &str) -> (r: String)
    ensures
        r@ == escape_seq(value@, false),
{
    escape(value, false)
}

/// `key=value` pairs of the annotation's position, those with an empty
/// value left out.
pub open spec fn position_props(d: DiagV) -> Seq<Seq<char>> {
    let f = escape_seq(d.file, true);
    (if f.len() > 0 {
        seq!["file="@ + f]
    } else {
        seq![]
    }) + (match d.line {
        Some(l) => seq!["line="@ + dec_chars(l as nat)],
        None => seq![],
    }) + (match d.column {
        Some(c) => seq!["col="@ + dec_chars(c as nat)],
        None => seq![],
    })
}

/// `::<severity> <props>::<code>: <message>`, the code defaulting to
/// `schema`.
pub open spec fn annotation_spec(d: DiagV) -> Seq<char> {
    "::"@ + d.severity + " "@ + join_with(position_props(d), seq![',']) + "::"@ + match d.code {
        Some(c) => c,
        None => "schema"@,
    } + ": "@ + escape_seq(d.message, false)
}

/// Renders a diagnostic as a GitHub Actions workflow command, which GitHub
/// shows as an inline annotation.
pub fn github_annotation(diag: &JsonDiagnostic) -> (r: String)
    ensures
        r@ == annotation_spec(diag@),
{
    let mut parts: Vec<String> = Vec::new();
    let file = escape_property(diag.file.as_str());
    if file.as_str().unicode_len() > 0 {
        let mut p = String::from_str("file=");
        p.append(file.as_str());
        parts.push(p);
    }
    match diag.line {
        Some(l) => {
            let mut p = String::from_str("line=");
            let d = usize_to_string(l);
            p.append(d.as_str());
            parts.push(p);
        },
        None => {},
    }
    match diag.column {
        Some(c) => {
            let mut p = String::from_str("col=");
            let d = usize_to_string(c);
            p.append(d.as_str());
            parts.push(p);
        },
        None => {},
    }
    let ghost pv = position_props(diag@);
    assert(Seq::new(parts@.len(), |i: int| parts@[i]@) =~= pv);
    let mut props = String::new();
    let mut i: usize = 0;
    assert(pv.take(0) =~= Seq::<Seq<char>>::empty());
    while i < parts.len()
        invariant
            i <= parts@.len(),
            pv.len() == parts@.len(),
            forall|k: int| 0 <= k < parts@.len() ==> (#[trigger] parts@[k])@ == pv[k],
            props@ == join_with(pv.take(i as int), seq![',']),
        decreases parts.len() - i,
    {
        assert(pv.take(i + 1).drop_last() =~= pv.take(i as int));
        if i > 0 {
            string_push(&mut props, ',');
        } else {
            assert(props@ =~= Seq::<char>::empty());
        }
        props.append(parts[i].as_str());
        assert(props@ =~= join_with(pv.take(i + 1), seq![',']));
        i += 1;
    }
    assert(pv.take(i as int) =~= pv);
    let mut out = String::from_str("::");
    out.append(diag.severity);
    out.append(" ");
    out.append(props.as_str());
    out.append("::");
    match &diag.code {
        Some(c) => out.append(c.as_str()),
        None => out.append("schema"),
    }
    out.append(": ");
    let data = escape_data(diag.message.as_str());
    out.append(data.as_str());
    out
}


/// `s` holds no line break.
pub open spec fn single_line(s: Seq<char>) -> bool {
    forall|i: int| 0 <= i < s.len() ==> s[i] != '\n' && s[i] != '\r'
}

/// Escaped text holds no line break (and an escaped property no `:` or
/// `,`), so it cannot end the workflow command early.
pub proof fn lemma_escape_clean(s: Seq<char>, property: bool)
    ensures
        single_line(escape_seq(s, property)),
        property ==> forall|i: int|
            0 <= i < escape_seq(s, property).len() ==> escape_seq(s, property)[i] != ':'
                && escape_seq(s, property)[i] != ',',
    decreases s.len(),
{
    if s.len() > 0 {
        lemma_escape_clean(s.drop_last(), property);
        let a = escape_seq(s.drop_last(), property);
        let b = escape_char(s.last(), property);
        assert(escape_seq(s, property) == a + b);
        assert forall|i: int| 0 <= i < (a + b).len() implies (a + b)[i] != '\n' && (a + b)[i]
            != '\r' && (property ==> (a + b)[i] != ':' && (a + b)[i] != ',') by {
            if i >= a.len() {
                assert((a + b)[i] == b[i - a.len()]);
            } else {
                assert((a + b)[i] == a[i]);
            }
        }
    }
}

proof fn lemma_dec_single_line(n: nat)
    ensures
        single_line(dec_chars(n)),
    decreases n,
{
    if n >= 10 {
        lemma_dec_single_line(n / 10);
    }
}

proof fn lemma_concat_single_line(a: Seq<char>, b: Seq<char>)
    requires
        single_line(a),
        single_line(b),
    ensures
        single_line(a + b),
{
    assert forall|i: int| 0 <= i < (a + b).len() implies (a + b)[i] != '\n' && (a + b)[i]
        != '\r' by {
        if i >= a.len() {
            assert((a + b)[i] == b[i - a.len()]);
        } else {
            assert((a + b)[i] == a[i]);
        }
    }
}

proof fn lemma_join_single_line(parts: Seq<Seq<char>>)
    requires
        forall|k: int| 0 <= k < parts.len() ==> single_line(#[trigger] parts[k]),
    ensures
        single_line(join_with(parts, seq![','])),
    decreases parts.len(),
{
    if parts.len() > 1 {
        lemma_join_single_line(parts.drop_last());
        assert(single_line(parts.last()));
        lemma_concat_single_line(join_with(parts.drop_last(), seq![',']), seq![',']);
        lemma_concat_single_line(join_with(parts.drop_last(), seq![',']) + seq![','], parts.last());
    } else if parts.len() == 1 {
        assert(single_line(parts[0]));
    }
}

/// A GitHub annotation is a single line whenever its severity and code are:
/// file names and messages with line breaks are escaped.
pub proof fn lemma_annotation_single_line(d: DiagV)
    requires
        single_line(d.severity),
        d.code matches Some(c) ==> single_line(c),
    ensures
        single_line(annotation_spec(d)),
{
    reveal_strlit("::");
    reveal_strlit(" ");
    reveal_strlit("file=");
    reveal_strlit("line=");
    reveal_strlit("col=");
    reveal_strlit("schema");
    reveal_strlit(": ");
    lemma_escape_clean(d.file, true);
    lemma_escape_clean(d.message, false);
    let f = escape_seq(d.file, true);
    let e: Seq<Seq<char>> = seq![];
    let p1 = if f.len() > 0 {
        seq!["file="@ + f]
    } else {
        e
    };
    let p2 = match d.line {
        Some(l) => seq!["line="@ + dec_chars(l as nat)],
        None => e,
    };
    let p3 = match d.column {
        Some(c) => seq!["col="@ + dec_chars(c as nat)],
        None => e,
    };
    if f.len() > 0 {
        lemma_concat_single_line("file="@, f);
    }
    match d.line {
        Some(l) => {
            lemma_dec_single_line(l as nat);
            lemma_concat_single_line("line="@, dec_chars(l as nat));
        },
        None => {},
    }
    match d.column {
        Some(c) => {
            lemma_dec_single_line(c as nat);
            lemma_concat_single_line("col="@, dec_chars(c as nat));
        },
        None => {},
    }
    let parts = position_props(d);
    assert(parts == p1 + p2 + p3);
    assert forall|k: int| 0 <= k < parts.len() implies single_line(#[trigger] parts[k]) by {
        if k < p1.len() {
            assert(parts[k] == p1[k]);
        } else if k < p1.len() + p2.len() {
            assert(parts[k] == p2[k - p1.len()]);
        } else {
            assert(parts[k] == p3[k - p1.len() - p2.len()]);
        }
    }
    lemma_join_single_line(parts);
    let code = match d.code {
        Some(c) => c,
        None => "schema"@,
    };
    lemma_concat_single_line("::"@, d.severity);
    lemma_concat_single_line("::"@ + d.severity, " "@);
    lemma_concat_single_line("::"@ + d.severity + " "@, join_with(parts, seq![',']));
    lemma_concat_single_line("::"@ + d.severity + " "@ + join_with(parts, seq![',']), "::"@);
    lemma_concat_single_line("::"@ + d.severity + " "@ + join_with(parts, seq![',']) + "::"@, code);
    lemma_concat_single_line(
        "::"@ + d.severity + " "@ + join_with(parts, seq![',']) + "::"@ + code,
        ": "@,
    );
    lemma_concat_single_line(
        "::"@ + d.severity + " "@ + join_with(parts, seq![',']) + "::"@ + code + ": "@,
        escape_seq(d.message, false),
    );
}


// ---------------------------------------------------------------------
// How a check ends
// ---------------------------------------------------------------------

/// How `lith check` ends, once the content files have been read.
pub enum CheckEnd {
    /// No content schema is configured: success, after printing `message`.
    NoSchema { message: String },
    /// Every file passed: success, after printing `line` (human format) or
    /// an empty JSON report (`json`); the GitHub format prints nothing.
    Passed { line: Option<String>, json: bool },
    /// Some file failed. The human format prints each failure and ends in
    /// the error `message`; the JSON format prints the report (`json`), the
    /// GitHub format one annotation per diagnostic (`annotations`), and both
    /// then exit with a failure status.
    Failed { message: Option<String>, json: bool, annotations: bool },
}

/// Mathematical form of [`CheckEnd`].
pub enum CheckEndV {
    NoSchema { message: Seq<char> },
    Passed { line: Option<Seq<char>>, json: bool },
    Failed { message: Option<Seq<char>>, json: bool, annotations: bool },
}

impl View for CheckEnd {
    type V = CheckEndV;

    open spec fn view(&self) -> CheckEndV {
        match self {
            CheckEnd::NoSchema { message } => CheckEndV::NoSchema { message: message@ },
            CheckEnd::Passed { line, json } => CheckEndV::Passed {
                line: match line {
                    Some(l) => Some(l@),
                    None => None,
                },
                json: *json,
            },
            CheckEnd::Failed { message, json, annotations } => CheckEndV::Failed {
                message: match message {
                    Some(m) => Some(m@),
                    None => None,
                },
                json: *json,
                annotations: *annotations,
            },
        }
    }
}

/// How the check ends: no schema, then all of `total` files passed, else
/// the failures counted in files and errors, in the output `format`.
pub open spec fn check_end_spec(has_schema: bool, total: nat, failures: Seq<FileFailure>, format: CheckFormat) -> CheckEndV {
    if !has_schema {
        CheckEndV::NoSchema { message: "No content schema configured; nothing to check"@ }
    } else if failures.len() == 0 {
        CheckEndV::Passed {
            line: if format == CheckFormat::Human {
                Some("All "@ + crate::text::dec_chars(total) + " content file(s) passed schema validation"@)
            } else {
                None
            },
            json: format == CheckFormat::Json,
        }
    } else {
        CheckEndV::Failed {
            message: if format == CheckFormat::Human {
                Some("Schema validation failed: "@ + crate::text::dec_chars(failures.len())
                    + " file(s) failed ("@ + crate::text::dec_chars(total_errors(failures))
                    + " error(s) total)"@)
            } else {
                None
            },
            json: format == CheckFormat::Json,
            annotations: format == CheckFormat::Github,
        }
    }
}

/// Decides how the check ends (see [`check_end_spec`]).
pub fn check_end(has_schema: bool, total: usize, failures: &[FileFailure], format: CheckFormat) -> (r: CheckEnd)
    requires
        total_errors(failures@) <= usize::MAX,
    ensures
        r@ == check_end_spec(has_schema, total as nat, failures@, format),
{
    if !has_schema {
        return CheckEnd::NoSchema {
            message: String::from_str("No content schema configured; nothing to check"),
        };
    }
    if failures.len() == 0 {
        let line = match format {
            CheckFormat::Human => Some(passed_message(total)),
            _ => None,
        };
        let json = match format {
            CheckFormat::Json => true,
            _ => false,
        };
        return CheckEnd::Passed { line, json };
    }
    let message = match format {
        CheckFormat::Human => Some(failed_message(failures.len(), total_error_count(failures))),
        _ => None,
    };
    let json = match format {
        CheckFormat::Json => true,
        _ => false,
    };
    let annotations = match format {
        CheckFormat::Github => true,
        _ => false,
    };
    CheckEnd::Failed { message, json, annotations }
}

} // verus!
