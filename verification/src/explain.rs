//! Explanations of diagnostic codes, as the documentation server gives
//! them to assistants.
use vstd::prelude::*;

use crate::search::trim_ws;
use crate::text::{chars_of, find_seq_from, str_equal, string_from_chars};

verus! {

/// The part of `code` after its last `::` (all of it when there is none).
pub open spec fn last_segment(code: Seq<char>) -> Seq<char> {
    match last_sep(code, code.len() - 2) {
        Some(i) => code.skip(i + 2),
        None => code,
    }
}

/// Start of the last `::` at or before `i`.
pub open spec fn last_sep(s: Seq<char>, i: int) -> Option<int>
    decreases i + 1,
{
    if i < 0 {
        None
    } else if i + 1 < s.len() && s[i] == ':' && s[i + 1] == ':' {
        Some(i)
    } else {
        last_sep(s, i - 1)
    }
}

/// Title, cause, fix and documentation page of a known short code.
pub open spec fn explanation(key: Seq<char>) -> Option<(Seq<char>, Seq<char>, Seq<char>, Seq<char>)> {
    if key == "missing_field"@ {
        Some(
            (
                "Missing field"@,
                "A field marked as required by the content schema is absent from the @document.meta block."@,
                "Add the missing field to the metadata block. Check which schema applies to the file's path (schemas are hierarchical: content/blog/** matches before **)."@,
                "https://norgolith.dev/docs/content-schemas/#norgolith-schema-missing-field"@,
            ),
        )
    } else if key == "type_mismatch"@ {
        Some(
            (
                "Type mismatch"@,
                "A metadata field has a value whose type differs from the schema definition (e.g. version: 1.0 parsed as number when the schema expects string)."@,
                "Change the value to the expected type. Quote values that look numeric but must be strings, e.g. version = '1.0'."@,
                "https://norgolith.dev/docs/content-schemas/#norgolith-schema-type-mismatch"@,
            ),
        )
    } else if key == "constraint_violation"@ {
        Some(
            (
                "Constraint violation"@,
                "A field violates a constraint defined in the schema: max_length, min_length, or a custom rule."@,
                "Read the violation message for the exact limit exceeded and adjust the value."@,
                "https://norgolith.dev/docs/content-schemas/#norgolith-schema-constraint-violation"@,
            ),
        )
    } else if key == "rule_condition"@ {
        Some(
            (
                "Rule condition failed"@,
                "A conditional schema rule did not apply as configured (warning severity, does not fail builds)."@,
                "Review the condition fields in your [content_schema.rules] configuration; this warning usually means the rule referenced fields that do not exist."@,
                "https://norgolith.dev/docs/content-schemas/#norgolith-schema-rule-condition"@,
            ),
        )
    } else if key == "unknown_field"@ {
        Some(
            (
                "Unknown field"@,
                "The metadata contains a field not defined in the content schema. A close-match suggestion may accompany the warning (warning severity, does not fail builds)."@,
                "Fix the typo if there was a suggestion, or add the field definition under [content_schema.fields.<name>] if it is intentional."@,
                "https://norgolith.dev/docs/content-schemas/#norgolith-schema-unknown-field"@,
            ),
        )
    } else {
        None
    }
}

/// The explanation text for a code, full (`norgolith::schema::x`) or short
/// (`x`), after trimming.
pub open spec fn explain_spec(code: Seq<char>) -> Seq<char> {
    let c = trim_ws(code);
    if c.len() == 0 {
        "No error code provided."@
    } else {
        let key = last_segment(c);
        match explanation(key) {
            Some((title, cause, fix, url)) => title + "\n\nCode: norgolith::schema::"@ + key
                + "\n\nWhat it means:\n"@ + cause + "\n\nHow to fix:\n"@ + fix + "\n\nDocs: "@ + url,
            None => "Unknown error code: "@ + c
                + ". Known codes: missing_field, type_mismatch, constraint_violation, rule_condition, unknown_field"@,
        }
    }
}

fn last_segment_of(c: &Vec<char>) -> (r: Vec<char>)
    ensures
        r@ == last_segment(c@),
{
    let n = c.len();
    let mut i: usize = n;
    // search down for the last "::"
    let ghost start = n as int - 2;
    while i >= 2
        invariant
            i <= n,
            n == c@.len(),
            start == n as int - 2,
            last_sep(c@, start) == last_sep(c@, i as int - 2),
        decreases i,
    {
        if c[i - 2] == ':' && c[i - 1] == ':' {
            assert(last_sep(c@, i as int - 2) == Some(i as int - 2));
            let from = i;
            let mut out: Vec<char> = Vec::new();
            let mut k = from;
            while k < n
                invariant
                    from <= k <= n,
                    n == c@.len(),
                    from == i,
                    start == n as int - 2,
                    last_sep(c@, start) == Some(i as int - 2),
                    out@ == c@.subrange(from as int, k as int),
                decreases n - k,
            {
                out.push(c[k]);
                k += 1;
                assert(out@ =~= c@.subrange(from as int, k as int));
            }
            assert(out@ =~= c@.skip(i - 2 + 2));
            return out;
        }
        i -= 1;
    }
    assert(last_sep(c@, i as int - 2) is None);
    let mut out: Vec<char> = Vec::new();
    let mut k: usize = 0;
    while k < n
        invariant
            k <= n,
            n == c@.len(),
            out@ == c@.take(k as int),
        decreases n - k,
    {
        out.push(c[k]);
        k += 1;
        assert(out@ =~= c@.take(k as int));
    }
    assert(c@.take(n as int) =~= c@);
    out
}

/// The explanation of a diagnostic code (see [`explain_spec`]).
pub fn explain_error(code: &str) -> (r: String)
    ensures
        r@ == explain_spec(code@),
{
    let c = crate::links::trimmed_chars(code);
    if c.len() == 0 {
        return String::from_str("No error code provided.");
    }
    let key_chars = last_segment_of(&c);
    let key = string_from_chars(&key_chars, 0, key_chars.len());
    assert(key@ =~= last_segment(c@));
    let k = key.as_str();
    let (title, cause, fix, url): (&str, &str, &str, &str) = if str_equal(k, "missing_field") {
        (
            "Missing field",
            "A field marked as required by the content schema is absent from the @document.meta block.",
            "Add the missing field to the metadata block. Check which schema applies to the file's path (schemas are hierarchical: content/blog/** matches before **).",
            "https://norgolith.dev/docs/content-schemas/#norgolith-schema-missing-field",
        )
    } else if str_equal(k, "type_mismatch") {
        (
            "Type mismatch",
            "A metadata field has a value whose type differs from the schema definition (e.g. version: 1.0 parsed as number when the schema expects string).",
            "Change the value to the expected type. Quote values that look numeric but must be strings, e.g. version = '1.0'.",
            "https://norgolith.dev/docs/content-schemas/#norgolith-schema-type-mismatch",
        )
    } else if str_equal(k, "constraint_violation") {
        (
            "Constraint violation",
            "A field violates a constraint defined in the schema: max_length, min_length, or a custom rule.",
            "Read the violation message for the exact limit exceeded and adjust the value.",
            "https://norgolith.dev/docs/content-schemas/#norgolith-schema-constraint-violation",
        )
    } else if str_equal(k, "rule_condition") {
        (
            "Rule condition failed",
            "A conditional schema rule did not apply as configured (warning severity, does not fail builds).",
            "Review the condition fields in your [content_schema.rules] configuration; this warning usually means the rule referenced fields that do not exist.",
            "https://norgolith.dev/docs/content-schemas/#norgolith-schema-rule-condition",
        )
    } else if str_equal(k, "unknown_field") {
        (
            "Unknown field",
            "The metadata contains a field not defined in the content schema. A close-match suggestion may accompany the warning (warning severity, does not fail builds).",
            "Fix the typo if there was a suggestion, or add the field definition under [content_schema.fields.<name>] if it is intentional.",
            "https://norgolith.dev/docs/content-schemas/#norgolith-schema-unknown-field",
        )
    } else {
        let cs = string_from_chars(&c, 0, c.len());
        assert(cs@ =~= c@);
        let mut m = String::from_str("Unknown error code: ");
        m.append(cs.as_str());
        m.append(
            ". Known codes: missing_field, type_mismatch, constraint_violation, rule_condition, unknown_field",
        );
        return m;
    };
    let mut m = String::from_str(title);
    m.append("\n\nCode: norgolith::schema::");
    m.append(k);
    m.append("\n\nWhat it means:\n");
    m.append(cause);
    m.append("\n\nHow to fix:\n");
    m.append(fix);
    m.append("\n\nDocs: ");
    m.append(url);
    m
}

proof fn lemma_trim_clean(s: Seq<char>)
    requires
        s.len() > 0,
        !crate::search::is_ws_char(s[0]),
        !crate::search::is_ws_char(s[s.len() - 1]),
    ensures
        trim_ws(s) == s,
{
    assert(crate::search::ws_skip(s, 0) == 0);
    assert(crate::search::ws_back(s, 0, s.len() as int) == s.len());
    assert(s.subrange(0, s.len() as int) =~= s);
}

proof fn lemma_last_sep_skips(s: Seq<char>, lo: int, i: int)
    requires
        0 <= lo <= i,
        forall|j: int| lo < j < s.len() ==> s[j] != ':',
    ensures
        last_sep(s, i) == last_sep(s, lo),
    decreases i - lo,
{
    if i > lo {
        lemma_last_sep_skips(s, lo, i - 1);
    }
}

proof fn lemma_last_sep_none(s: Seq<char>, i: int)
    requires
        forall|j: int| 0 <= j < s.len() ==> s[j] != ':',
    ensures
        last_sep(s, i) is None,
    decreases i + 1,
{
    if i >= 0 {
        lemma_last_sep_none(s, i - 1);
    }
}

/// A known code written in full (`norgolith::schema::` and the short code)
/// gets the same explanation as its short form.
pub proof fn lemma_full_and_short_codes_agree(key: Seq<char>)
    requires
        explanation(key) is Some,
        key.len() > 0,
        forall|j: int| 0 <= j < key.len() ==> key[j] != ':',
        !crate::search::is_ws_char(key[0]),
        !crate::search::is_ws_char(key[key.len() - 1]),
    ensures
        explain_spec("norgolith::schema::"@ + key) == explain_spec(key),
{
    reveal_strlit("norgolith::schema::");
    let p = "norgolith::schema::"@;
    let full = p + key;
    assert(p.len() == 19);
    assert(full[0] == 'n');
    assert(full[full.len() - 1] == key[key.len() - 1]);
    lemma_trim_clean(full);
    lemma_trim_clean(key);
    assert forall|j: int| 18 < j < full.len() implies full[j] != ':' by {
        assert(full[j] == key[j - 19]);
    }
    lemma_last_sep_skips(full, 18, full.len() - 2);
    assert(full[18] == ':' && full[19] == key[0]);
    assert(last_sep(full, 18) == last_sep(full, 17));
    assert(full[17] == ':');
    assert(last_sep(full, 17) == Some(17int));
    assert(full.skip(19) =~= key);
    assert(last_sep(full, full.len() - 2) == Some(17int));
    assert(last_segment(full) == key);
    lemma_last_sep_none(key, key.len() - 2);
    assert(last_segment(key) == key);
}

} // verus!
