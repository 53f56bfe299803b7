//! Content schemas: typed field definitions, hierarchical schemas selected by
//! content path, and conditional rules, checked against document metadata.
use vstd::prelude::*;
use vstd::string::StringSliceAdditionalSpecFns;

use crate::hierarchy::keys_distinct;
use crate::meta_spans::Span;
use crate::pattern::{regex_is_match, regex_match, regex_valid};
use crate::text::{
    chars_of, concat2, concat3, dec_chars, find_char, i64_to_string, index_of_from, int_chars,
    split_char, split_chars, split_from, str_equal, string_from_chars, usize_to_string,
};

verus! {

// ---------------------------------------------------------------------
// Metadata values
// ---------------------------------------------------------------------

/// What a metadata value holds.
pub enum MetaData {
    String(String),
    Integer(i64),
    /// A double, by its IEEE-754 bit pattern.
    Float(u64),
    Boolean(bool),
    /// A date-time, by its TOML text.
    Datetime(String),
    Array(Vec<MetaValue>),
    /// Key/value entries; keys are distinct.
    Table(Vec<(String, MetaValue)>),
}

/// A metadata value together with its TOML rendering (what error messages
/// quote).
pub struct MetaValue {
    pub data: MetaData,
    pub text: String,
}

/// Mathematical form of [`MetaData`].
pub enum DataV {
    String(Seq<char>),
    Integer(i64),
    Float(u64),
    Boolean(bool),
    Datetime(Seq<char>),
    Array(Seq<ValueV>),
    Table(Seq<(Seq<char>, ValueV)>),
}

/// Mathematical form of [`MetaValue`].
pub struct ValueV {
    pub data: DataV,
    pub text: Seq<char>,
}

pub open spec fn value_view(v: MetaValue) -> ValueV
    decreases v,
{
    ValueV {
        data: match v.data {
            MetaData::String(s) => DataV::String(s@),
            MetaData::Integer(n) => DataV::Integer(n),
            MetaData::Float(b) => DataV::Float(b),
            MetaData::Boolean(b) => DataV::Boolean(b),
            MetaData::Datetime(s) => DataV::Datetime(s@),
            MetaData::Array(a) => DataV::Array(
                Seq::new(
                    a.len() as nat,
                    |i: int|
                        if 0 <= i < a.len() {
                            value_view(a[i])
                        } else {
                            arbitrary()
                        },
                ),
            ),
            MetaData::Table(t) => DataV::Table(
                Seq::new(
                    t.len() as nat,
                    |i: int|
                        if 0 <= i < t.len() {
                            (t[i].0@, value_view(t[i].1))
                        } else {
                            arbitrary()
                        },
                ),
            ),
        },
        text: v.text@,
    }
}

impl View for MetaValue {
    type V = ValueV;

    open spec fn view(&self) -> ValueV {
        value_view(*self)
    }
}


// ---------------------------------------------------------------------
// Doubles, by bit pattern
// ---------------------------------------------------------------------

pub open spec fn f64_sign(b: u64) -> nat {
    (b / 0x8000_0000_0000_0000u64) as nat
}

/// Everything but the sign bit.
pub open spec fn f64_mag(b: u64) -> nat {
    (b % 0x8000_0000_0000_0000u64) as nat
}

pub open spec fn f64_is_nan(b: u64) -> bool {
    f64_mag(b) > 0x7FF0_0000_0000_0000
}

/// IEEE-754 `a < b` on the doubles with bit patterns `a` and `b`: false when
/// either is NaN; both zeros are equal; otherwise sign-magnitude order.
pub open spec fn f64_lt(a: u64, b: u64) -> bool {
    &&& !f64_is_nan(a)
    &&& !f64_is_nan(b)
    &&& !(f64_mag(a) == 0 && f64_mag(b) == 0)
    &&& if f64_sign(a) == 1 && f64_sign(b) == 0 {
        true
    } else if f64_sign(a) == 0 && f64_sign(b) == 1 {
        false
    } else if f64_sign(a) == 0 {
        f64_mag(a) < f64_mag(b)
    } else {
        f64_mag(a) > f64_mag(b)
    }
}

/// IEEE-754 `a == b`: false for NaN; `+0 == -0`.
pub open spec fn f64_eq(a: u64, b: u64) -> bool {
    !f64_is_nan(a) && !f64_is_nan(b) && (a == b || (f64_mag(a) == 0 && f64_mag(b) == 0))
}

pub fn float_lt(a: u64, b: u64) -> (r: bool)
    ensures
        r == f64_lt(a, b),
{
    let sa = a / 0x8000_0000_0000_0000u64;
    let sb = b / 0x8000_0000_0000_0000u64;
    let ma = a % 0x8000_0000_0000_0000u64;
    let mb = b % 0x8000_0000_0000_0000u64;
    if ma > 0x7FF0_0000_0000_0000 || mb > 0x7FF0_0000_0000_0000 {
        return false;
    }
    if ma == 0 && mb == 0 {
        return false;
    }
    if sa == 1 && sb == 0 {
        true
    } else if sa == 0 && sb == 1 {
        false
    } else if sa == 0 {
        ma < mb
    } else {
        ma > mb
    }
}

pub fn float_eq(a: u64, b: u64) -> (r: bool)
    ensures
        r == f64_eq(a, b),
{
    let ma = a % 0x8000_0000_0000_0000u64;
    let mb = b % 0x8000_0000_0000_0000u64;
    if ma > 0x7FF0_0000_0000_0000 || mb > 0x7FF0_0000_0000_0000 {
        return false;
    }
    a == b || (ma == 0 && mb == 0)
}

// ---------------------------------------------------------------------
// Value equality and type names
// ---------------------------------------------------------------------

/// Entry for `key` in a key/value list (the first one).
pub open spec fn lookup<V>(t: Seq<(Seq<char>, V)>, key: Seq<char>) -> Option<V>
    decreases t.len(),
{
    if t.len() == 0 {
        None
    } else if t[0].0 == key {
        Some(t[0].1)
    } else {
        lookup(t.drop_first(), key)
    }
}

/// A well-formed metadata value: the keys of every table in it, at any
/// depth, are distinct (as those of the TOML table it stands for are).
pub open spec fn value_wf(v: ValueV) -> bool
    decreases v,
{
    match v.data {
        DataV::Array(a) => forall|i: int| 0 <= i < a.len() ==> value_wf(#[trigger] a[i]),
        DataV::Table(t) => keys_distinct(t) && forall|i: int|
            0 <= i < t.len() ==> value_wf(#[trigger] t[i].1),
        _ => true,
    }
}

/// Well-formed entries of a table: distinct keys, well-formed values.
pub open spec fn entries_wf(t: Seq<(Seq<char>, ValueV)>) -> bool {
    keys_distinct(t) && forall|i: int| 0 <= i < t.len() ==> value_wf(#[trigger] t[i].1)
}

/// A well-formed field definition: the fields of every object schema in
/// it are distinct, and the values an array must contain are well-formed.
pub open spec fn def_wf(d: DefV) -> bool
    decreases d,
{
    match d {
        DefV::Array { items, must_contain, .. } => def_wf(*items) && match must_contain {
            Some(m) => forall|i: int| 0 <= i < m.len() ==> value_wf(#[trigger] m[i]),
            None => true,
        },
        DefV::Object { schema } => keys_distinct(schema) && forall|i: int|
            0 <= i < schema.len() ==> def_wf(#[trigger] schema[i].1),
        _ => true,
    }
}

/// Well-formed field definitions: distinct names, well-formed definitions.
pub open spec fn defs_wf(s: Seq<(Seq<char>, DefV)>) -> bool {
    keys_distinct(s) && forall|i: int| 0 <= i < s.len() ==> def_wf(#[trigger] s[i].1)
}

/// Equality of metadata values (what `==` on TOML values decides): same
/// kind and same contents, tables compared as maps.
pub open spec fn value_eq(a: ValueV, b: ValueV) -> bool
    decreases a, 0int,
{
    match (a.data, b.data) {
        (DataV::String(x), DataV::String(y)) => x == y,
        (DataV::Integer(x), DataV::Integer(y)) => x == y,
        (DataV::Float(x), DataV::Float(y)) => f64_eq(x, y),
        (DataV::Boolean(x), DataV::Boolean(y)) => x == y,
        (DataV::Datetime(x), DataV::Datetime(y)) => x == y,
        (DataV::Array(x), DataV::Array(y)) => x.len() == y.len() && items_eq(x, y, 0),
        (DataV::Table(x), DataV::Table(y)) => x.len() == y.len() && entries_eq(x, y, 0),
        _ => false,
    }
}

/// Items `i..` of two equally long arrays are pairwise equal.
pub open spec fn items_eq(x: Seq<ValueV>, y: Seq<ValueV>, i: int) -> bool
    decreases x, x.len() - i,
{
    if !(0 <= i < x.len()) {
        true
    } else {
        value_eq(x[i], y[i]) && items_eq(x, y, i + 1)
    }
}

/// Entries `i..` of table `x` are present in table `y` with equal values.
pub open spec fn entries_eq(x: Seq<(Seq<char>, ValueV)>, y: Seq<(Seq<char>, ValueV)>, i: int) -> bool
    decreases x, x.len() - i,
{
    if !(0 <= i < x.len()) {
        true
    } else {
        match lookup(y, x[i].0) {
            Some(v) => value_eq(x[i].1, v) && entries_eq(x, y, i + 1),
            None => false,
        }
    }
}

/// TOML type name of a value.
pub open spec fn type_str(v: ValueV) -> Seq<char> {
    match v.data {
        DataV::String(_) => "string"@,
        DataV::Integer(_) => "integer"@,
        DataV::Float(_) => "float"@,
        DataV::Boolean(_) => "boolean"@,
        DataV::Datetime(_) => "datetime"@,
        DataV::Array(_) => "array"@,
        DataV::Table(_) => "table"@,
    }
}


/// Entry for `key` in a table (the first one).
pub fn table_get<'a>(t: &'a Vec<(String, MetaValue)>, key: &str) -> (r: Option<&'a MetaValue>)
    ensures
        match lookup(table_view(t@), key@) {
            Some(v) => r matches Some(x) && x@ == v,
            None => r is None,
        },
{
    let mut i: usize = 0;
    assert(table_view(t@).skip(0) =~= table_view(t@));
    while i < t.len()
        invariant
            i <= t@.len(),
            lookup(table_view(t@), key@) == lookup(table_view(t@).skip(i as int), key@),
        decreases t.len() - i,
    {
        assert(table_view(t@).skip(i as int).drop_first() =~= table_view(t@).skip(i + 1));
        if str_equal(t[i].0.as_str(), key) {
            return Some(&t[i].1);
        }
        i += 1;
    }
    None
}

/// Mathematical form of a table's entries.
pub open spec fn table_view(t: Seq<(String, MetaValue)>) -> Seq<(Seq<char>, ValueV)> {
    Seq::new(t.len(), |i: int| (t[i].0@, t[i].1@))
}

/// Mathematical form of an array's items.
pub open spec fn items_view(a: Seq<MetaValue>) -> Seq<ValueV> {
    Seq::new(a.len(), |i: int| a[i]@)
}

pub proof fn lemma_value_view_parts(v: MetaValue)
    ensures
        v.data matches MetaData::Array(a) ==> v@.data == DataV::Array(items_view(a@)),
        v.data matches MetaData::Table(t) ==> v@.data == DataV::Table(table_view(t@)),
        v@.text == v.text@,
{
    assert(v@ == value_view(v));
    match v.data {
        MetaData::Array(a) => {
            match v@.data {
                DataV::Array(xs) => {
                    assert(xs =~= items_view(a@));
                },
                _ => {},
            }
        },
        MetaData::Table(t) => {
            match v@.data {
                DataV::Table(xs) => {
                    assert(xs =~= table_view(t@));
                },
                _ => {},
            }
        },
        _ => {},
    }
}

/// Equality of metadata values, as `==` on TOML values decides it.
pub fn values_equal(a: &MetaValue, b: &MetaValue) -> (r: bool)
    ensures
        r == value_eq(a@, b@),
    decreases a,
{
    proof {
        lemma_value_view_parts(*a);
        lemma_value_view_parts(*b);
    }
    match &a.data {
        MetaData::String(x) => match &b.data {
            MetaData::String(y) => *x == *y,
            _ => false,
        },
        MetaData::Integer(x) => match &b.data {
            MetaData::Integer(y) => *x == *y,
            _ => false,
        },
        MetaData::Float(x) => match &b.data {
            MetaData::Float(y) => float_eq(*x, *y),
            _ => false,
        },
        MetaData::Boolean(x) => match &b.data {
            MetaData::Boolean(y) => *x == *y,
            _ => false,
        },
        MetaData::Datetime(x) => match &b.data {
            MetaData::Datetime(y) => *x == *y,
            _ => false,
        },
        MetaData::Array(x) => match &b.data {
            MetaData::Array(y) => {
                if x.len() != y.len() {
                    return false;
                }
                let ghost xv = items_view(x@);
                let ghost yv = items_view(y@);
                let mut i: usize = 0;
                while i < x.len()
                    invariant
                        i <= x@.len(),
                        x@.len() == y@.len(),
                        xv == items_view(x@),
                        yv == items_view(y@),
                        a.data == MetaData::Array(*x),
                        a@.data == DataV::Array(xv),
                        b@.data == DataV::Array(yv),
                        items_eq(xv, yv, 0) == items_eq(xv, yv, i as int),
                    decreases x.len() - i,
                {
                    proof {
                        assert(decreases_to!(*a => a.data));
                        assert(decreases_to!(a.data => a.data->Array_0));
                        vstd::std_specs::vec::axiom_vec_index_decreases(*x, i as int);
                    }
                    if !values_equal(&x[i], &y[i]) {
                        return false;
                    }
                    i += 1;
                }
                true
            },
            _ => false,
        },
        MetaData::Table(x) => match &b.data {
            MetaData::Table(y) => {
                if x.len() != y.len() {
                    return false;
                }
                let ghost xv = table_view(x@);
                let ghost yv = table_view(y@);
                let mut i: usize = 0;
                while i < x.len()
                    invariant
                        i <= x@.len(),
                        x@.len() == y@.len(),
                        xv == table_view(x@),
                        yv == table_view(y@),
                        a.data == MetaData::Table(*x),
                        a@.data == DataV::Table(xv),
                        b@.data == DataV::Table(yv),
                        entries_eq(xv, yv, 0) == entries_eq(xv, yv, i as int),
                    decreases x.len() - i,
                {
                    match table_get(y, x[i].0.as_str()) {
                        Some(v) => {
                            proof {
                                assert(decreases_to!(*a => a.data));
                                assert(decreases_to!(a.data => a.data->Table_0));
                                vstd::std_specs::vec::axiom_vec_index_decreases(*x, i as int);
                                assert(decreases_to!(x[i as int] => x[i as int].1));
                            }
                            if !values_equal(&x[i].1, v) {
                                return false;
                            }
                        },
                        None => {
                            return false;
                        },
                    }
                    i += 1;
                }
                true
            },
            _ => false,
        },
    }
}


impl Clone for MetaValue {
    fn clone(&self) -> (r: Self)
        ensures
            r@ == self@,
        decreases self,
    {
        proof {
            lemma_value_view_parts(*self);
        }
        let data = match &self.data {
            MetaData::String(x) => MetaData::String(x.clone()),
            MetaData::Integer(x) => MetaData::Integer(*x),
            MetaData::Float(x) => MetaData::Float(*x),
            MetaData::Boolean(x) => MetaData::Boolean(*x),
            MetaData::Datetime(x) => MetaData::Datetime(x.clone()),
            MetaData::Array(x) => {
                let mut out: Vec<MetaValue> = Vec::new();
                let mut i: usize = 0;
                while i < x.len()
                    invariant
                        i <= x@.len(),
                        self.data == MetaData::Array(*x),
                        out@.len() == i,
                        forall|j: int| 0 <= j < i ==> (#[trigger] out@[j])@ == x@[j]@,
                    decreases x.len() - i,
                {
                    proof {
                        assert(decreases_to!(*self => self.data));
                        assert(decreases_to!(self.data => self.data->Array_0));
                        vstd::std_specs::vec::axiom_vec_index_decreases(*x, i as int);
                    }
                    let c = x[i].clone();
                    out.push(c);
                    i += 1;
                }
                assert(items_view(out@) =~= items_view(x@));
                MetaData::Array(out)
            },
            MetaData::Table(x) => {
                let mut out: Vec<(String, MetaValue)> = Vec::new();
                let mut i: usize = 0;
                while i < x.len()
                    invariant
                        i <= x@.len(),
                        self.data == MetaData::Table(*x),
                        out@.len() == i,
                        forall|j: int|
                            0 <= j < i ==> (#[trigger] out@[j]).0@ == x@[j].0@ && out@[j].1@
                                == x@[j].1@,
                    decreases x.len() - i,
                {
                    proof {
                        assert(decreases_to!(*self => self.data));
                        assert(decreases_to!(self.data => self.data->Table_0));
                        vstd::std_specs::vec::axiom_vec_index_decreases(*x, i as int);
                        assert(decreases_to!(x[i as int] => x[i as int].1));
                    }
                    let k = x[i].0.clone();
                    let c = x[i].1.clone();
                    out.push((k, c));
                    i += 1;
                }
                assert(table_view(out@) =~= table_view(x@));
                MetaData::Table(out)
            },
        };
        let r = MetaValue { data, text: self.text.clone() };
        proof {
            lemma_value_view_parts(r);
        }
        r
    }
}


// ---------------------------------------------------------------------
// Validation errors
// ---------------------------------------------------------------------

/// A metadata field that does not satisfy the content schema.
pub enum ValidationError {
    MissingField { field: String, span: Option<Span> },
    TypeMismatch { field: String, expected: String, actual: String, span: Option<Span> },
    ConstraintViolation { field: String, message: String, span: Option<Span> },
    RuleConditionFailed { message: String },
    UnknownField { field: String, suggested: Option<String>, span: Option<Span> },
}

/// Mathematical form of [`ValidationError`].
pub enum ErrorV {
    MissingField { field: Seq<char>, span: Option<Span> },
    TypeMismatch { field: Seq<char>, expected: Seq<char>, actual: Seq<char>, span: Option<Span> },
    ConstraintViolation { field: Seq<char>, message: Seq<char>, span: Option<Span> },
    RuleConditionFailed { message: Seq<char> },
    UnknownField { field: Seq<char>, suggested: Option<Seq<char>>, span: Option<Span> },
}

pub open spec fn opt_str_view(s: Option<String>) -> Option<Seq<char>> {
    match s {
        Some(x) => Some(x@),
        None => None,
    }
}

impl View for ValidationError {
    type V = ErrorV;

    open spec fn view(&self) -> ErrorV {
        match self {
            ValidationError::MissingField { field, span } => ErrorV::MissingField {
                field: field@,
                span: *span,
            },
            ValidationError::TypeMismatch { field, expected, actual, span } => ErrorV::TypeMismatch {
                field: field@,
                expected: expected@,
                actual: actual@,
                span: *span,
            },
            ValidationError::ConstraintViolation { field, message, span } =>
                ErrorV::ConstraintViolation { field: field@, message: message@, span: *span },
            ValidationError::RuleConditionFailed { message } => ErrorV::RuleConditionFailed {
                message: message@,
            },
            ValidationError::UnknownField { field, suggested, span } => ErrorV::UnknownField {
                field: field@,
                suggested: opt_str_view(*suggested),
                span: *span,
            },
        }
    }
}

pub open spec fn result_view(r: Result<(), ValidationError>) -> Result<(), ErrorV> {
    match r {
        Ok(()) => Ok(()),
        Err(e) => Err(e@),
    }
}

pub open spec fn violation(field: Seq<char>, message: Seq<char>) -> ErrorV {
    ErrorV::ConstraintViolation { field, message, span: None }
}

/// Stable diagnostic code of an error.
pub open spec fn code_of(e: ErrorV) -> Seq<char> {
    match e {
        ErrorV::MissingField { .. } => "norgolith::schema::missing_field"@,
        ErrorV::TypeMismatch { .. } => "norgolith::schema::type_mismatch"@,
        ErrorV::ConstraintViolation { .. } => "norgolith::schema::constraint_violation"@,
        ErrorV::RuleConditionFailed { .. } => "norgolith::schema::rule_condition"@,
        ErrorV::UnknownField { .. } => "norgolith::schema::unknown_field"@,
    }
}

/// Documentation page of an error.
pub open spec fn url_of(e: ErrorV) -> Seq<char> {
    match e {
        ErrorV::MissingField { .. } =>
            "https://norgolith.dev/docs/content-schemas/#norgolith-schema-missing-field"@,
        ErrorV::TypeMismatch { .. } =>
            "https://norgolith.dev/docs/content-schemas/#norgolith-schema-type-mismatch"@,
        ErrorV::ConstraintViolation { .. } =>
            "https://norgolith.dev/docs/content-schemas/#norgolith-schema-constraint-violation"@,
        ErrorV::RuleConditionFailed { .. } =>
            "https://norgolith.dev/docs/content-schemas/#norgolith-schema-rule-condition"@,
        ErrorV::UnknownField { .. } =>
            "https://norgolith.dev/docs/content-schemas/#norgolith-schema-unknown-field"@,
    }
}

/// Failed rule conditions and unknown fields are warnings; the rest are
/// errors.
pub open spec fn is_warning_spec(e: ErrorV) -> bool {
    e is RuleConditionFailed || e is UnknownField
}

/// ` (did you mean 's'?)` when there is a suggestion.
pub open spec fn suggestion_suffix(s: Option<Seq<char>>) -> Seq<char> {
    match s {
        Some(x) => " (did you mean '"@ + x + "'?)"@,
        None => seq![],
    }
}

/// One-line description of an error.
pub open spec fn message_of(e: ErrorV) -> Seq<char> {
    match e {
        ErrorV::MissingField { field, .. } => "Missing field '"@ + field + "'"@,
        ErrorV::TypeMismatch { field, expected, actual, .. } => "Type mismatch for field '"@
            + field + "': expected "@ + expected + ", got "@ + actual,
        ErrorV::ConstraintViolation { field, message, .. } => "Constraint violation for field '"@
            + field + "': "@ + message,
        ErrorV::RuleConditionFailed { message } => "Rule condition failed: "@ + message,
        ErrorV::UnknownField { field, suggested, .. } => "Unknown field '"@ + field + "'"@
            + suggestion_suffix(suggested),
    }
}

/// What to do about an error.
pub open spec fn help_of(e: ErrorV) -> Seq<char> {
    match e {
        ErrorV::MissingField { field, .. } => "Add the missing field '"@ + field
            + "' to your content metadata"@,
        ErrorV::TypeMismatch { field, expected, .. } => "Change field '"@ + field
            + "' to expected type "@ + expected,
        ErrorV::ConstraintViolation { message, .. } => message,
        ErrorV::RuleConditionFailed { message } => message,
        ErrorV::UnknownField { field, suggested, .. } => "Field '"@ + field
            + "' is not defined in the content schema"@ + match suggested {
            Some(x) => "; did you mean '"@ + x + "'?"@,
            None => seq![],
        },
    }
}

/// Text shown at the error's place in the source, for the errors that have
/// one.
pub open spec fn label_of(e: ErrorV) -> Option<Seq<char>> {
    match e {
        ErrorV::MissingField { field, .. } => Some("missing field '"@ + field + "'"@),
        ErrorV::TypeMismatch { expected, actual, .. } => Some(
            "expected "@ + expected + ", got "@ + actual,
        ),
        ErrorV::ConstraintViolation { message, .. } => Some(message),
        ErrorV::RuleConditionFailed { .. } => None,
        ErrorV::UnknownField { field, suggested, .. } => Some(
            "unknown field '"@ + field + "'"@ + suggestion_suffix(suggested),
        ),
    }
}

/// Where an error points in the source, if known.
pub open spec fn span_of(e: ErrorV) -> Option<Span> {
    match e {
        ErrorV::MissingField { span, .. } => span,
        ErrorV::TypeMismatch { span, .. } => span,
        ErrorV::ConstraintViolation { span, .. } => span,
        ErrorV::RuleConditionFailed { .. } => None,
        ErrorV::UnknownField { span, .. } => span,
    }
}

fn push_suggestion(s: &mut String, suggested: &Option<String>)
    ensures
        final(s)@ == old(s)@ + suggestion_suffix(opt_str_view(*suggested)),
{
    match suggested {
        Some(x) => {
            s.append(" (did you mean '");
            s.append(x.as_str());
            s.append("'?)");
        },
        None => {
            assert(old(s)@ + seq![] =~= old(s)@);
        },
    }
}

impl ValidationError {
    /// Stable diagnostic code.
    pub fn code(&self) -> (r: &'static str)
        ensures
            r@ == code_of(self@),
    {
        match self {
            ValidationError::MissingField { .. } => "norgolith::schema::missing_field",
            ValidationError::TypeMismatch { .. } => "norgolith::schema::type_mismatch",
            ValidationError::ConstraintViolation { .. } => "norgolith::schema::constraint_violation",
            ValidationError::RuleConditionFailed { .. } => "norgolith::schema::rule_condition",
            ValidationError::UnknownField { .. } => "norgolith::schema::unknown_field",
        }
    }

    /// Documentation page.
    pub fn url(&self) -> (r: &'static str)
        ensures
            r@ == url_of(self@),
    {
        match self {
            ValidationError::MissingField { .. } =>
                "https://norgolith.dev/docs/content-schemas/#norgolith-schema-missing-field",
            ValidationError::TypeMismatch { .. } =>
                "https://norgolith.dev/docs/content-schemas/#norgolith-schema-type-mismatch",
            ValidationError::ConstraintViolation { .. } =>
                "https://norgolith.dev/docs/content-schemas/#norgolith-schema-constraint-violation",
            ValidationError::RuleConditionFailed { .. } =>
                "https://norgolith.dev/docs/content-schemas/#norgolith-schema-rule-condition",
            ValidationError::UnknownField { .. } =>
                "https://norgolith.dev/docs/content-schemas/#norgolith-schema-unknown-field",
        }
    }

    /// Whether this is reported as a warning rather than an error.
    pub fn is_warning(&self) -> (r: bool)
        ensures
            r == is_warning_spec(self@),
    {
        match self {
            ValidationError::RuleConditionFailed { .. } => true,
            ValidationError::UnknownField { .. } => true,
            _ => false,
        }
    }

    /// Where the error points in the source, if known.
    pub fn span(&self) -> (r: Option<Span>)
        ensures
            r == span_of(self@),
    {
        match self {
            ValidationError::MissingField { span, .. } => *span,
            ValidationError::TypeMismatch { span, .. } => *span,
            ValidationError::ConstraintViolation { span, .. } => *span,
            ValidationError::RuleConditionFailed { .. } => None,
            ValidationError::UnknownField { span, .. } => *span,
        }
    }

    /// One-line description.
    pub fn message(&self) -> (r: String)
        ensures
            r@ == message_of(self@),
    {
        match self {
            ValidationError::MissingField { field, .. } => {
                let mut s = String::from_str("Missing field '");
                s.append(field.as_str());
                s.append("'");
                s
            },
            ValidationError::TypeMismatch { field, expected, actual, .. } => {
                let mut s = String::from_str("Type mismatch for field '");
                s.append(field.as_str());
                s.append("': expected ");
                s.append(expected.as_str());
                s.append(", got ");
                s.append(actual.as_str());
                s
            },
            ValidationError::ConstraintViolation { field, message, .. } => {
                let mut s = String::from_str("Constraint violation for field '");
                s.append(field.as_str());
                s.append("': ");
                s.append(message.as_str());
                s
            },
            ValidationError::RuleConditionFailed { message } => {
                let mut s = String::from_str("Rule condition failed: ");
                s.append(message.as_str());
                s
            },
            ValidationError::UnknownField { field, suggested, .. } => {
                let mut s = String::from_str("Unknown field '");
                s.append(field.as_str());
                s.append("'");
                push_suggestion(&mut s, suggested);
                s
            },
        }
    }

    /// What to do about it.
    pub fn help(&self) -> (r: String)
        ensures
            r@ == help_of(self@),
    {
        match self {
            ValidationError::MissingField { field, .. } => {
                let mut s = String::from_str("Add the missing field '");
                s.append(field.as_str());
                s.append("' to your content metadata");
                s
            },
            ValidationError::TypeMismatch { field, expected, .. } => {
                let mut s = String::from_str("Change field '");
                s.append(field.as_str());
                s.append("' to expected type ");
                s.append(expected.as_str());
                s
            },
            ValidationError::ConstraintViolation { message, .. } => message.clone(),
            ValidationError::RuleConditionFailed { message } => message.clone(),
            ValidationError::UnknownField { field, suggested, .. } => {
                let mut s = String::from_str("Field '");
                s.append(field.as_str());
                s.append("' is not defined in the content schema");
                match suggested {
                    Some(x) => {
                        s.append("; did you mean '");
                        s.append(x.as_str());
                        s.append("'?");
                    },
                    None => {},
                }
                s
            },
        }
    }

    /// Text shown at the error's place in the source.
    pub fn label(&self) -> (r: Option<String>)
        ensures
            opt_str_view(r) == label_of(self@),
    {
        match self {
            ValidationError::MissingField { field, .. } => {
                let mut s = String::from_str("missing field '");
                s.append(field.as_str());
                s.append("'");
                Some(s)
            },
            ValidationError::TypeMismatch { expected, actual, .. } => {
                let mut s = String::from_str("expected ");
                s.append(expected.as_str());
                s.append(", got ");
                s.append(actual.as_str());
                Some(s)
            },
            ValidationError::ConstraintViolation { message, .. } => Some(message.clone()),
            ValidationError::RuleConditionFailed { .. } => None,
            ValidationError::UnknownField { field, suggested, .. } => {
                let mut s = String::from_str("unknown field '");
                s.append(field.as_str());
                s.append("'");
                push_suggestion(&mut s, suggested);
                Some(s)
            },
        }
    }
}

/// The errors of one validation, reported together.
pub struct ValidationErrors(pub Vec<ValidationError>);

impl ValidationErrors {
    /// The headline of the report: how many errors there are.
    pub fn message(&self) -> (r: String)
        ensures
            r@ == "Schema validation failed ("@ + crate::text::dec_chars(self.0@.len()) + " errors)"@,
    {
        let n = crate::text::usize_to_string(self.0.len());
        crate::text::concat3("Schema validation failed (", n.as_str(), " errors)")
    }
}

impl Clone for ValidationError {
    fn clone(&self) -> (r: Self)
        ensures
            r@ == self@,
    {
        match self {
            ValidationError::MissingField { field, span } => ValidationError::MissingField {
                field: field.clone(),
                span: *span,
            },
            ValidationError::TypeMismatch { field, expected, actual, span } =>
                ValidationError::TypeMismatch {
                field: field.clone(),
                expected: expected.clone(),
                actual: actual.clone(),
                span: *span,
            },
            ValidationError::ConstraintViolation { field, message, span } =>
                ValidationError::ConstraintViolation {
                field: field.clone(),
                message: message.clone(),
                span: *span,
            },
            ValidationError::RuleConditionFailed { message } =>
                ValidationError::RuleConditionFailed { message: message.clone() },
            ValidationError::UnknownField { field, suggested, span } =>
                ValidationError::UnknownField {
                field: field.clone(),
                suggested: match suggested {
                    Some(x) => Some(x.clone()),
                    None => None,
                },
                span: *span,
            },
        }
    }
}

// ---------------------------------------------------------------------
// Field definitions
// ---------------------------------------------------------------------

/// A bound on a float field: the double by bit pattern, and its rendering.
pub struct FloatBound {
    pub bits: u64,
    pub text: String,
}

/// The expected type (and constraints) of a metadata field.
pub enum FieldDefinition {
    String { min_length: Option<usize>, max_length: Option<usize>, pattern: Option<String> },
    Integer { min: Option<i64>, max: Option<i64> },
    Float { min: Option<FloatBound>, max: Option<FloatBound> },
    Array {
        items: Box<FieldDefinition>,
        min_items: Option<usize>,
        max_items: Option<usize>,
        must_contain: Option<Vec<MetaValue>>,
    },
    Boolean,
    Object { schema: Vec<(String, FieldDefinition)> },
}

/// Mathematical form of [`FieldDefinition`].
pub enum DefV {
    String { min_length: Option<usize>, max_length: Option<usize>, pattern: Option<Seq<char>> },
    Integer { min: Option<i64>, max: Option<i64> },
    Float { min: Option<(u64, Seq<char>)>, max: Option<(u64, Seq<char>)> },
    Array {
        items: Box<DefV>,
        min_items: Option<usize>,
        max_items: Option<usize>,
        must_contain: Option<Seq<ValueV>>,
    },
    Boolean,
    Object { schema: Seq<(Seq<char>, DefV)> },
}

pub open spec fn bound_view(b: Option<FloatBound>) -> Option<(u64, Seq<char>)> {
    match b {
        Some(x) => Some((x.bits, x.text@)),
        None => None,
    }
}

pub open spec fn def_view(d: FieldDefinition) -> DefV
    decreases d,
{
    match d {
        FieldDefinition::String { min_length, max_length, pattern } => DefV::String {
            min_length,
            max_length,
            pattern: opt_str_view(pattern),
        },
        FieldDefinition::Integer { min, max } => DefV::Integer { min, max },
        FieldDefinition::Float { min, max } => DefV::Float {
            min: bound_view(min),
            max: bound_view(max),
        },
        FieldDefinition::Array { items, min_items, max_items, must_contain } => DefV::Array {
            items: Box::new(def_view(*items)),
            min_items,
            max_items,
            must_contain: match must_contain {
                Some(v) => Some(items_view(v@)),
                None => None,
            },
        },
        FieldDefinition::Boolean => DefV::Boolean,
        FieldDefinition::Object { schema } => DefV::Object {
            schema: Seq::new(
                schema.len() as nat,
                |i: int|
                    if 0 <= i < schema.len() {
                        (schema[i].0@, def_view(schema[i].1))
                    } else {
                        arbitrary()
                    },
            ),
        },
    }
}

impl View for FieldDefinition {
    type V = DefV;

    open spec fn view(&self) -> DefV {
        def_view(*self)
    }
}

/// Mathematical form of an object schema's entries.
pub open spec fn defs_view(s: Seq<(String, FieldDefinition)>) -> Seq<(Seq<char>, DefV)> {
    Seq::new(s.len(), |i: int| (s[i].0@, s[i].1@))
}

pub proof fn lemma_def_view_parts(d: FieldDefinition)
    ensures
        d matches FieldDefinition::Object { schema } ==> d@ == (DefV::Object {
            schema: defs_view(schema@),
        }),
{
    assert(d@ == def_view(d));
    match d {
        FieldDefinition::Object { schema } => {
            match d@ {
                DefV::Object { schema: xs } => {
                    assert(xs =~= defs_view(schema@));
                },
                _ => {},
            }
        },
        _ => {},
    }
}

/// The name of the type a definition expects.
pub open spec fn expected_type(d: DefV) -> Seq<char> {
    match d {
        DefV::String { .. } => "string"@,
        DefV::Integer { .. } => "integer"@,
        DefV::Float { .. } => "float"@,
        DefV::Array { .. } => "array"@,
        DefV::Boolean => "boolean"@,
        DefV::Object { .. } => "object"@,
    }
}

pub open spec fn mismatch(field: Seq<char>, d: DefV, v: ValueV) -> ErrorV {
    ErrorV::TypeMismatch { field, expected: expected_type(d), actual: v.text, span: None }
}

/// Whether `arr` holds a value equal to `x` among items `j..`.
pub open spec fn holds_value(arr: Seq<ValueV>, x: ValueV, j: int) -> bool
    decreases arr.len() - j,
{
    if !(0 <= j < arr.len()) {
        false
    } else {
        value_eq(arr[j], x) || holds_value(arr, x, j + 1)
    }
}

/// The first of `required` (from index `k`) that `arr` lacks.
pub open spec fn first_missing(required: Seq<ValueV>, arr: Seq<ValueV>, k: int) -> Option<ValueV>
    decreases required.len() - k,
{
    if !(0 <= k < required.len()) {
        None
    } else if !holds_value(arr, required[k], 0) {
        Some(required[k])
    } else {
        first_missing(required, arr, k + 1)
    }
}

/// String constraints, checked in order: minimum byte length, maximum byte
/// length, pattern.
pub open spec fn check_string(
    min_length: Option<usize>,
    max_length: Option<usize>,
    pattern: Option<Seq<char>>,
    s: Seq<char>,
    field: Seq<char>,
) -> Result<(), ErrorV> {
    let n = vstd::utf8::encode_utf8(s).len();
    if min_length is Some && n < min_length->0 {
        Err(violation(field, "Below minimum length "@ + dec_chars(min_length->0 as nat)))
    } else if max_length is Some && n > max_length->0 {
        Err(violation(field, "Exceeds max length "@ + dec_chars(max_length->0 as nat)))
    } else {
        match pattern {
            None => Ok(()),
            Some(p) => if !regex_valid(p) {
                Err(violation(field, "Invalid regex pattern: "@ + p))
            } else if !regex_is_match(p, s) {
                Err(violation(field, "No pattern matching "@ + p))
            } else {
                Ok(())
            },
        }
    }
}

/// Checks `value` against `d`; the error is the first violation found.
/// `field` names the value in errors; array items are named `field[i]` and
/// object members `field.key`.
pub open spec fn validate_spec(d: DefV, value: ValueV, field: Seq<char>) -> Result<(), ErrorV>
    decreases d, 0int,
{
    match d {
        DefV::String { min_length, max_length, pattern } => match value.data {
            DataV::String(s) => check_string(min_length, max_length, pattern, s, field),
            _ => Err(mismatch(field, d, value)),
        },
        DefV::Integer { min, max } => match value.data {
            DataV::Integer(n) => if min is Some && n < min->0 {
                Err(violation(field, "Below minimum value "@ + int_chars(min->0 as int)))
            } else if max is Some && n > max->0 {
                Err(violation(field, "Exceeds maximum value "@ + int_chars(max->0 as int)))
            } else {
                Ok(())
            },
            _ => Err(mismatch(field, d, value)),
        },
        DefV::Float { min, max } => match value.data {
            DataV::Float(n) => if min is Some && f64_lt(n, (min->0).0) {
                Err(violation(field, "Below minimum value "@ + (min->0).1))
            } else if max is Some && f64_lt((max->0).0, n) {
                Err(violation(field, "Exceeds maximum value "@ + (max->0).1))
            } else {
                Ok(())
            },
            _ => Err(mismatch(field, d, value)),
        },
        DefV::Array { items, min_items, max_items, must_contain } => match value.data {
            DataV::Array(arr) => {
                let missing = match must_contain {
                    Some(req) => first_missing(req, arr, 0),
                    None => None,
                };
                if missing is Some {
                    Err(violation(field, "Missing value "@ + (missing->0).text))
                } else if min_items is Some && arr.len() < min_items->0 {
                    Err(
                        violation(
                            field,
                            "Must contain at least "@ + dec_chars(min_items->0 as nat)
                                + " value(s)"@,
                        ),
                    )
                } else if max_items is Some && arr.len() > max_items->0 {
                    Err(
                        violation(
                            field,
                            "Exceeds values limit (expected "@ + dec_chars(max_items->0 as nat)
                                + " value(s))"@,
                        ),
                    )
                } else {
                    validate_items(*items, arr, field, 0)
                }
            },
            _ => Err(mismatch(field, d, value)),
        },
        DefV::Boolean => match value.data {
            DataV::Boolean(_) => Ok(()),
            _ => Err(mismatch(field, d, value)),
        },
        DefV::Object { schema } => match value.data {
            DataV::Table(t) => validate_members(schema, t, field, 0),
            _ => Err(mismatch(field, d, value)),
        },
    }
}

/// Name of item `i` of the array named `field`: `field[i]`.
pub open spec fn item_name(field: Seq<char>, i: nat) -> Seq<char> {
    field + seq!['['] + dec_chars(i) + seq![']']
}

/// Name of member `key` of the object named `field`: `field.key`.
pub open spec fn member_name(field: Seq<char>, key: Seq<char>) -> Seq<char> {
    field + seq!['.'] + key
}

/// Items `i..` of an array, each against `d`.
pub open spec fn validate_items(d: DefV, arr: Seq<ValueV>, field: Seq<char>, i: int) -> Result<
    (),
    ErrorV,
>
    decreases d, arr.len() - i,
{
    if !(0 <= i < arr.len()) {
        Ok(())
    } else {
        match validate_spec(d, arr[i], item_name(field, i as nat)) {
            Err(e) => Err(e),
            Ok(()) => validate_items(d, arr, field, i + 1),
        }
    }
}

/// Members `i..` of an object schema, each checked against the table's
/// entry of the same key when there is one.
pub open spec fn validate_members(
    schema: Seq<(Seq<char>, DefV)>,
    t: Seq<(Seq<char>, ValueV)>,
    field: Seq<char>,
    i: int,
) -> Result<(), ErrorV>
    decreases schema, schema.len() - i,
{
    if !(0 <= i < schema.len()) {
        Ok(())
    } else {
        match lookup(t, schema[i].0) {
            Some(v) => match validate_spec(schema[i].1, v, member_name(field, schema[i].0)) {
                Err(e) => Err(e),
                Ok(()) => validate_members(schema, t, field, i + 1),
            },
            None => validate_members(schema, t, field, i + 1),
        }
    }
}


/// Whether `arr` holds a value equal to `x`.
pub fn contains_value(arr: &Vec<MetaValue>, x: &MetaValue) -> (r: bool)
    ensures
        r == holds_value(items_view(arr@), x@, 0),
{
    let ghost av = items_view(arr@);
    let mut j: usize = 0;
    while j < arr.len()
        invariant
            j <= arr@.len(),
            av == items_view(arr@),
            holds_value(av, x@, 0) == holds_value(av, x@, j as int),
        decreases arr.len() - j,
    {
        if values_equal(&arr[j], x) {
            return true;
        }
        j += 1;
    }
    false
}

fn violation_error(field_name: &str, message: String) -> (r: ValidationError)
    ensures
        r@ == violation(field_name@, message@),
{
    ValidationError::ConstraintViolation {
        field: String::from_str(field_name),
        message,
        span: None,
    }
}

/// `field[i]`
fn item_name_of(field_name: &str, i: usize) -> (r: String)
    ensures
        r@ == item_name(field_name@, i as nat),
{
    let mut s = String::from_str(field_name);
    s.append("[");
    let d = usize_to_string(i);
    s.append(d.as_str());
    s.append("]");
    proof {
        reveal_strlit("[");
        reveal_strlit("]");
    }
    assert(s@ =~= item_name(field_name@, i as nat));
    s
}

impl FieldDefinition {
    /// Name of the type this definition expects.
    fn type_label(&self) -> (r: String)
        ensures
            r@ == expected_type(self@),
    {
        match self {
            FieldDefinition::String { .. } => String::from_str("string"),
            FieldDefinition::Integer { .. } => String::from_str("integer"),
            FieldDefinition::Float { .. } => String::from_str("float"),
            FieldDefinition::Array { .. } => String::from_str("array"),
            FieldDefinition::Boolean => String::from_str("boolean"),
            FieldDefinition::Object { .. } => String::from_str("object"),
        }
    }

    fn mismatch_error(&self, value: &MetaValue, field_name: &str) -> (r: ValidationError)
        ensures
            r@ == mismatch(field_name@, self@, value@),
    {
        proof {
            lemma_value_view_parts(*value);
        }
        ValidationError::TypeMismatch {
            field: String::from_str(field_name),
            expected: self.type_label(),
            actual: value.text.clone(),
            span: None,
        }
    }

    /// Checks `value` against this definition; `field_name` names it in the
    /// error, which is the first violation found.
    #[verifier::loop_isolation(false)]
    pub fn validate(&self, value: &MetaValue, field_name: &str) -> (r: Result<(), ValidationError>)
        ensures
            result_view(r) == validate_spec(self@, value@, field_name@),
        decreases self,
    {
        proof {
            lemma_value_view_parts(*value);
            lemma_def_view_parts(*self);
        }
        match self {
            FieldDefinition::String { min_length, max_length, pattern } => match &value.data {
                MetaData::String(s) => {
                    let n = s.as_str().as_bytes().len();
                    assert(self@ == (DefV::String {
                        min_length: *min_length,
                        max_length: *max_length,
                        pattern: opt_str_view(*pattern),
                    }));
                    assert(value@.data == DataV::String(s@));
                    assert(n == vstd::utf8::encode_utf8(s@).len());
                    if let Some(min) = min_length {
                        if n < *min {
                            return Err(
                                violation_error(
                                    field_name,
                                    concat2("Below minimum length ", usize_to_string(*min).as_str()),
                                ),
                            );
                        }
                    }
                    if let Some(max) = max_length {
                        if n > *max {
                            return Err(
                                violation_error(
                                    field_name,
                                    concat2("Exceeds max length ", usize_to_string(*max).as_str()),
                                ),
                            );
                        }
                    }
                    match pattern {
                        None => Ok(()),
                        Some(p) => match regex_match(p.as_str(), s.as_str()) {
                            None => Err(
                                violation_error(
                                    field_name,
                                    concat2("Invalid regex pattern: ", p.as_str()),
                                ),
                            ),
                            Some(false) => Err(
                                violation_error(field_name, concat2("No pattern matching ", p.as_str())),
                            ),
                            Some(true) => Ok(()),
                        },
                    }
                },
                _ => Err(self.mismatch_error(value, field_name)),
            },
            FieldDefinition::Integer { min, max } => match &value.data {
                MetaData::Integer(n) => {
                    if let Some(min) = min {
                        if *n < *min {
                            return Err(
                                violation_error(
                                    field_name,
                                    concat2("Below minimum value ", i64_to_string(*min).as_str()),
                                ),
                            );
                        }
                    }
                    if let Some(max) = max {
                        if *n > *max {
                            return Err(
                                violation_error(
                                    field_name,
                                    concat2("Exceeds maximum value ", i64_to_string(*max).as_str()),
                                ),
                            );
                        }
                    }
                    Ok(())
                },
                _ => Err(self.mismatch_error(value, field_name)),
            },
            FieldDefinition::Float { min, max } => match &value.data {
                MetaData::Float(n) => {
                    if let Some(min) = min {
                        if float_lt(*n, min.bits) {
                            return Err(
                                violation_error(
                                    field_name,
                                    concat2("Below minimum value ", min.text.as_str()),
                                ),
                            );
                        }
                    }
                    if let Some(max) = max {
                        if float_lt(max.bits, *n) {
                            return Err(
                                violation_error(
                                    field_name,
                                    concat2("Exceeds maximum value ", max.text.as_str()),
                                ),
                            );
                        }
                    }
                    Ok(())
                },
                _ => Err(self.mismatch_error(value, field_name)),
            },
            FieldDefinition::Array { items, min_items, max_items, must_contain } => match &value.data {
                MetaData::Array(arr) => {
                    let ghost av = items_view(arr@);
                    if let Some(required_values) = must_contain {
                        let ghost rv = items_view(required_values@);
                        let mut k: usize = 0;
                        while k < required_values.len()
                            invariant
                                k <= required_values@.len(),
                                rv == items_view(required_values@),
                                av == items_view(arr@),
                                first_missing(rv, av, 0) == first_missing(rv, av, k as int),
                            decreases required_values.len() - k,
                        {
                            if !contains_value(arr, &required_values[k]) {
                                proof {
                                    lemma_value_view_parts(required_values[k as int]);
                                }
                                return Err(
                                    violation_error(
                                        field_name,
                                        concat2("Missing value ", required_values[k].text.as_str()),
                                    ),
                                );
                            }
                            k += 1;
                        }
                    }
                    if let Some(min) = min_items {
                        if arr.len() < *min {
                            return Err(
                                violation_error(
                                    field_name,
                                    concat3(
                                        "Must contain at least ",
                                        usize_to_string(*min).as_str(),
                                        " value(s)",
                                    ),
                                ),
                            );
                        }
                    }
                    if let Some(max) = max_items {
                        if arr.len() > *max {
                            return Err(
                                violation_error(
                                    field_name,
                                    concat3(
                                        "Exceeds values limit (expected ",
                                        usize_to_string(*max).as_str(),
                                        " value(s))",
                                    ),
                                ),
                            );
                        }
                    }
                    let mut i: usize = 0;
                    while i < arr.len()
                        invariant
                            i <= arr@.len(),
                            av == items_view(arr@),
                            *self == (FieldDefinition::Array {
                                items: *items,
                                min_items: *min_items,
                                max_items: *max_items,
                                must_contain: *must_contain,
                            }),
                            validate_items(items@, av, field_name@, 0) == validate_items(
                                items@,
                                av,
                                field_name@,
                                i as int,
                            ),
                        decreases arr.len() - i,
                    {
                        let name = item_name_of(field_name, i);
                        proof {
                            assert(decreases_to!(*self => self->items));
                        }
                        match items.validate(&arr[i], name.as_str()) {
                            Err(e) => {
                                return Err(e);
                            },
                            Ok(()) => {},
                        }
                        i += 1;
                    }
                    Ok(())
                },
                _ => Err(self.mismatch_error(value, field_name)),
            },
            FieldDefinition::Boolean => match &value.data {
                MetaData::Boolean(_) => Ok(()),
                _ => Err(self.mismatch_error(value, field_name)),
            },
            FieldDefinition::Object { schema } => match &value.data {
                MetaData::Table(table) => {
                    let ghost sv = defs_view(schema@);
                    let ghost tv = table_view(table@);
                    let mut i: usize = 0;
                    while i < schema.len()
                        invariant
                            i <= schema@.len(),
                            sv == defs_view(schema@),
                            tv == table_view(table@),
                            *self == (FieldDefinition::Object { schema: *schema }),
                            validate_members(sv, tv, field_name@, 0) == validate_members(
                                sv,
                                tv,
                                field_name@,
                                i as int,
                            ),
                        decreases schema.len() - i,
                    {
                        match table_get(table, schema[i].0.as_str()) {
                            Some(val) => {
                                let name = concat3(field_name, ".", schema[i].0.as_str());
                                proof {
                                    reveal_strlit(".");
                                    assert(name@ =~= member_name(field_name@, sv[i as int].0));
                                    assert(decreases_to!(*self => self->schema));
                                    vstd::std_specs::vec::axiom_vec_index_decreases(
                                        *schema,
                                        i as int,
                                    );
                                    assert(decreases_to!(schema[i as int] => schema[i as int].1));
                                }
                                match schema[i].1.validate(val, name.as_str()) {
                                    Err(e) => {
                                        return Err(e);
                                    },
                                    Ok(()) => {},
                                }
                            },
                            None => {},
                        }
                        i += 1;
                    }
                    Ok(())
                },
                _ => Err(self.mismatch_error(value, field_name)),
            },
        }
    }
}


impl Clone for FloatBound {
    fn clone(&self) -> (r: Self)
        ensures
            r.bits == self.bits,
            r.text@ == self.text@,
    {
        FloatBound { bits: self.bits, text: self.text.clone() }
    }
}

fn clone_bound(b: &Option<FloatBound>) -> (r: Option<FloatBound>)
    ensures
        bound_view(r) == bound_view(*b),
{
    match b {
        Some(x) => Some(x.clone()),
        None => None,
    }
}

fn clone_opt_string(s: &Option<String>) -> (r: Option<String>)
    ensures
        opt_str_view(r) == opt_str_view(*s),
{
    match s {
        Some(x) => Some(x.clone()),
        None => None,
    }
}

/// A copy of a list of values, item by item.
pub fn clone_values(v: &Vec<MetaValue>) -> (r: Vec<MetaValue>)
    ensures
        items_view(r@) == items_view(v@),
{
    let mut out: Vec<MetaValue> = Vec::new();
    let mut i: usize = 0;
    while i < v.len()
        invariant
            i <= v@.len(),
            out@.len() == i,
            forall|j: int| 0 <= j < i ==> (#[trigger] out@[j])@ == v@[j]@,
        decreases v.len() - i,
    {
        out.push(v[i].clone());
        i += 1;
    }
    assert(items_view(out@) =~= items_view(v@));
    out
}

impl Clone for FieldDefinition {
    fn clone(&self) -> (r: Self)
        ensures
            r@ == self@,
        decreases self,
    {
        proof {
            lemma_def_view_parts(*self);
        }
        match self {
            FieldDefinition::String { min_length, max_length, pattern } => FieldDefinition::String {
                min_length: *min_length,
                max_length: *max_length,
                pattern: clone_opt_string(pattern),
            },
            FieldDefinition::Integer { min, max } => FieldDefinition::Integer { min: *min, max: *max },
            FieldDefinition::Float { min, max } => FieldDefinition::Float {
                min: clone_bound(min),
                max: clone_bound(max),
            },
            FieldDefinition::Array { items, min_items, max_items, must_contain } => {
                proof {
                    assert(decreases_to!(*self => self->items));
                }
                let it: FieldDefinition = (**items).clone();
                let mc = match must_contain {
                    Some(v) => Some(clone_values(v)),
                    None => None,
                };
                let r = FieldDefinition::Array {
                    items: Box::new(it),
                    min_items: *min_items,
                    max_items: *max_items,
                    must_contain: mc,
                };
                r
            },
            FieldDefinition::Boolean => FieldDefinition::Boolean,
            FieldDefinition::Object { schema } => {
                let mut out: Vec<(String, FieldDefinition)> = Vec::new();
                let mut i: usize = 0;
                while i < schema.len()
                    invariant
                        i <= schema@.len(),
                        *self == (FieldDefinition::Object { schema: *schema }),
                        out@.len() == i,
                        forall|j: int|
                            0 <= j < i ==> (#[trigger] out@[j]).0@ == schema@[j].0@ && out@[j].1@
                                == schema@[j].1@,
                    decreases schema.len() - i,
                {
                    proof {
                        assert(decreases_to!(*self => self->schema));
                        vstd::std_specs::vec::axiom_vec_index_decreases(*schema, i as int);
                        assert(decreases_to!(schema[i as int] => schema[i as int].1));
                    }
                    let k = schema[i].0.clone();
                    let d = schema[i].1.clone();
                    out.push((k, d));
                    i += 1;
                }
                assert(defs_view(out@) =~= defs_view(schema@));
                let r = FieldDefinition::Object { schema: out };
                proof {
                    lemma_def_view_parts(r);
                }
                r
            },
        }
    }
}


// ---------------------------------------------------------------------
// Conditional rules
// ---------------------------------------------------------------------

/// What a rule demands once its condition holds.
pub struct RuleAction {
    pub required: Option<Vec<String>>,
    pub fields: Option<Vec<(String, FieldDefinition)>>,
}

/// A rule: `condition` maps metadata paths to the values they must equal.
pub struct ValidationRule {
    pub condition: Vec<(String, MetaValue)>,
    pub action: RuleAction,
}

/// Mathematical form of [`ValidationRule`].
pub struct RuleV {
    pub condition: Seq<(Seq<char>, ValueV)>,
    pub required: Option<Seq<Seq<char>>>,
    pub fields: Option<Seq<(Seq<char>, DefV)>>,
}

pub open spec fn strings_view(v: Seq<String>) -> Seq<Seq<char>> {
    Seq::new(v.len(), |i: int| v[i]@)
}

impl View for ValidationRule {
    type V = RuleV;

    open spec fn view(&self) -> RuleV {
        RuleV {
            condition: table_view(self.condition@),
            required: match self.action.required {
                Some(r) => Some(strings_view(r@)),
                None => None,
            },
            fields: match self.action.fields {
                Some(f) => Some(defs_view(f@)),
                None => None,
            },
        }
    }
}

pub fn clone_strings(v: &Vec<String>) -> (r: Vec<String>)
    ensures
        strings_view(r@) == strings_view(v@),
{
    let mut out: Vec<String> = Vec::new();
    let mut i: usize = 0;
    while i < v.len()
        invariant
            i <= v@.len(),
            out@.len() == i,
            forall|j: int| 0 <= j < i ==> (#[trigger] out@[j])@ == v@[j]@,
        decreases v.len() - i,
    {
        out.push(v[i].clone());
        i += 1;
    }
    assert(strings_view(out@) =~= strings_view(v@));
    out
}

pub fn clone_defs(v: &Vec<(String, FieldDefinition)>) -> (r: Vec<(String, FieldDefinition)>)
    ensures
        defs_view(r@) == defs_view(v@),
{
    let mut out: Vec<(String, FieldDefinition)> = Vec::new();
    let mut i: usize = 0;
    while i < v.len()
        invariant
            i <= v@.len(),
            out@.len() == i,
            forall|j: int|
                0 <= j < i ==> (#[trigger] out@[j]).0@ == v@[j].0@ && out@[j].1@ == v@[j].1@,
        decreases v.len() - i,
    {
        out.push((v[i].0.clone(), v[i].1.clone()));
        i += 1;
    }
    assert(defs_view(out@) =~= defs_view(v@));
    out
}

pub fn clone_table(v: &Vec<(String, MetaValue)>) -> (r: Vec<(String, MetaValue)>)
    ensures
        table_view(r@) == table_view(v@),
{
    let mut out: Vec<(String, MetaValue)> = Vec::new();
    let mut i: usize = 0;
    while i < v.len()
        invariant
            i <= v@.len(),
            out@.len() == i,
            forall|j: int|
                0 <= j < i ==> (#[trigger] out@[j]).0@ == v@[j].0@ && out@[j].1@ == v@[j].1@,
        decreases v.len() - i,
    {
        out.push((v[i].0.clone(), v[i].1.clone()));
        i += 1;
    }
    assert(table_view(out@) =~= table_view(v@));
    out
}

impl Clone for ValidationRule {
    fn clone(&self) -> (r: Self)
        ensures
            r@ == self@,
    {
        let required = match &self.action.required {
            Some(v) => Some(clone_strings(v)),
            None => None,
        };
        let fields = match &self.action.fields {
            Some(v) => Some(clone_defs(v)),
            None => None,
        };
        ValidationRule {
            condition: clone_table(&self.condition),
            action: RuleAction { required, fields },
        }
    }
}

pub open spec fn all_digits(d: Seq<char>) -> bool {
    forall|i: int| 0 <= i < d.len() ==> '0' <= #[trigger] d[i] <= '9'
}

pub open spec fn digits_value(d: Seq<char>) -> nat
    decreases d.len(),
{
    if d.len() == 0 {
        0
    } else {
        digits_value(d.drop_last()) * 10 + (d.last() as nat - '0' as nat) as nat
    }
}

/// `usize`'s `FromStr`: an optional `+`, then one or more ASCII digits,
/// within range.
pub open spec fn parse_usize(s: Seq<char>) -> Option<nat> {
    let d = if s.len() > 0 && s[0] == '+' {
        s.drop_first()
    } else {
        s
    };
    if d.len() == 0 || !all_digits(d) || digits_value(d) > usize::MAX {
        None
    } else {
        Some(digits_value(d))
    }
}

/// A path segment `key` or `key[i]`: the key and the index, if any. The
/// index is present only when the segment ends in `]` and the text between
/// the first `[` and that `]` parses as an index.
pub open spec fn split_index_spec(seg: Seq<char>) -> (Seq<char>, Option<nat>) {
    match index_of_from(seg, '[', 0) {
        None => (seg, None),
        Some(i) => {
            let rest = seg.subrange(i + 1, seg.len() as int);
            (
                seg.subrange(0, i),
                if rest.len() > 0 && rest.last() == ']' {
                    parse_usize(rest.drop_last())
                } else {
                    None
                },
            )
        },
    }
}

/// Item `idx` of `v` when given, else `v` itself.
pub open spec fn index_step(v: ValueV, idx: Option<nat>) -> Option<ValueV> {
    match idx {
        None => Some(v),
        Some(i) => match v.data {
            DataV::Array(a) => if i < a.len() {
                Some(a[i as int])
            } else {
                None
            },
            _ => None,
        },
    }
}

/// Follows segments `k..` of a path from `v`.
pub open spec fn walk_path(v: ValueV, parts: Seq<Seq<char>>, k: int) -> Option<ValueV>
    decreases parts.len() - k,
{
    if !(0 <= k < parts.len()) {
        Some(v)
    } else {
        let (key, idx) = split_index_spec(parts[k]);
        match v.data {
            DataV::Table(t) => match lookup(t, key) {
                Some(x) => match index_step(x, idx) {
                    Some(y) => walk_path(y, parts, k + 1),
                    None => None,
                },
                None => None,
            },
            _ => None,
        }
    }
}

/// The value at a dot/bracket path (`key`, `key.sub`, `arr[0]`,
/// `arr[0].sub`) in a metadata table.
pub open spec fn get_path_spec(md: Seq<(Seq<char>, ValueV)>, path: Seq<char>) -> Option<ValueV> {
    let parts = split_char(path, '.');
    let (key, idx) = split_index_spec(parts[0]);
    match lookup(md, key) {
        None => None,
        Some(v0) => match index_step(v0, idx) {
            None => None,
            Some(v1) => walk_path(v1, parts, 1),
        },
    }
}

/// The rule's verdict from condition `i` on, `acc` standing for the ones
/// before: an error for the first condition whose value is of another type
/// than the metadata's, else whether every condition field is present and
/// equal.
pub open spec fn applies_from(
    cond: Seq<(Seq<char>, ValueV)>,
    md: Seq<(Seq<char>, ValueV)>,
    i: int,
    acc: bool,
) -> Result<bool, ErrorV>
    decreases cond.len() - i,
{
    if !(0 <= i < cond.len()) {
        Ok(acc)
    } else {
        match get_path_spec(md, cond[i].0) {
            Some(actual) => if type_str(actual) != type_str(cond[i].1) {
                Err(
                    ErrorV::RuleConditionFailed {
                        message: "Type mismatch in condition field '"@ + cond[i].0
                            + "': expected "@ + type_str(cond[i].1) + ", got "@ + type_str(actual),
                    },
                )
            } else {
                applies_from(cond, md, i + 1, acc && value_eq(actual, cond[i].1))
            },
            None => applies_from(cond, md, i + 1, false),
        }
    }
}

/// The condition fields, from the `i`-th on, that the metadata lacks and
/// that a rule check reaches before it stops at a type mismatch: the
/// fields it warns about ("Missing condition field").
pub open spec fn missing_from(cond: Seq<(Seq<char>, ValueV)>, md: Seq<(Seq<char>, ValueV)>, i: int) -> Seq<Seq<char>>
    decreases cond.len() - i,
{
    if !(0 <= i < cond.len()) {
        seq![]
    } else {
        match get_path_spec(md, cond[i].0) {
            Some(actual) => if type_str(actual) != type_str(cond[i].1) {
                seq![]
            } else {
                missing_from(cond, md, i + 1)
            },
            None => seq![cond[i].0] + missing_from(cond, md, i + 1),
        }
    }
}

/// Parses a decimal index (`usize::from_str`).
fn parse_index(s: &Vec<char>, a: usize, e: usize) -> (r: Option<usize>)
    requires
        a <= e <= s@.len(),
    ensures
        match parse_usize(s@.subrange(a as int, e as int)) {
            Some(n) => r == Some(n as usize),
            None => r is None,
        },
{
    let ghost full = s@.subrange(a as int, e as int);
    let mut start = a;
    if a < e && s[a] == '+' {
        start = a + 1;
        assert(full.drop_first() =~= s@.subrange(start as int, e as int));
    }
    let ghost d = s@.subrange(start as int, e as int);
    assert(d == (if full.len() > 0 && full[0] == '+' {
        full.drop_first()
    } else {
        full
    }));
    if start == e {
        return None;
    }
    let mut value: usize = 0;
    let mut i = start;
    while i < e
        invariant
            start <= i <= e <= s@.len(),
            d == s@.subrange(start as int, e as int),
            full == s@.subrange(a as int, e as int),
            d == (if full.len() > 0 && full[0] == '+' {
                full.drop_first()
            } else {
                full
            }),
            all_digits(s@.subrange(start as int, i as int)),
            value as nat == digits_value(s@.subrange(start as int, i as int)),
        decreases e - i,
    {
        let c = s[i];
        let ghost pre = s@.subrange(start as int, i as int);
        let ghost post = s@.subrange(start as int, i + 1);
        assert(post.drop_last() =~= pre);
        if !('0' <= c && c <= '9') {
            assert(!all_digits(d)) by {
                assert(d[i - start] == c);
            }
            return None;
        }
        let digit = (c as u32 - '0' as u32) as usize;
        assert(digits_value(post) == digits_value(pre) * 10 + digit);
        match value.checked_mul(10) {
            None => {
                proof {
                    if all_digits(d) {
                        lemma_digits_value_monotone(d, i + 1 - start);
                        assert(d.subrange(0, i + 1 - start) =~= post);
                    }
                }
                return None;
            },
            Some(v10) => match v10.checked_add(digit) {
                None => {
                    proof {
                        if all_digits(d) {
                            lemma_digits_value_monotone(d, i + 1 - start);
                            assert(d.subrange(0, i + 1 - start) =~= post);
                        }
                    }
                    return None;
                },
                Some(v) => {
                    value = v;
                },
            },
        }
        i += 1;
    }
    assert(s@.subrange(start as int, e as int) =~= d);
    Some(value)
}

/// A prefix of a digit string is worth at most the whole string.
pub proof fn lemma_digits_value_monotone(d: Seq<char>, k: int)
    requires
        0 <= k <= d.len(),
        all_digits(d),
    ensures
        digits_value(d.subrange(0, k)) <= digits_value(d),
    decreases d.len() - k,
{
    if k < d.len() {
        lemma_digits_value_monotone(d, k + 1);
        let s1 = d.subrange(0, k + 1);
        assert(s1.drop_last() =~= d.subrange(0, k));
        assert('0' <= d[k] <= '9');
        assert(s1.last() == d[k]);
        assert(digits_value(s1) == digits_value(s1.drop_last()) * 10 + (s1.last() as nat
            - '0' as nat) as nat);
    } else {
        assert(d.subrange(0, k) =~= d);
    }
}

/// Splits a metadata path segment such as `authors[0]` into its key and
/// its index (see [`split_index_spec`]).
pub fn split_index(segment: &str) -> (r: (String, Option<usize>))
    ensures
        r.0@ == split_index_spec(segment@).0,
        match split_index_spec(segment@).1 {
            Some(n) => r.1 == Some(n as usize),
            None => r.1 is None,
        },
{
    let cs = chars_of(segment);
    split_index_chars(&cs)
}

/// Splits a path segment into its key and optional index (see
/// [`split_index_spec`]).
fn split_index_chars(seg: &Vec<char>) -> (r: (String, Option<usize>))
    ensures
        r.0@ == split_index_spec(seg@).0,
        match split_index_spec(seg@).1 {
            Some(n) => r.1 == Some(n as usize),
            None => r.1 is None,
        },
{
    match find_char(seg, '[', 0) {
        None => (string_from_chars(seg, 0, seg.len()), None),
        Some(i) => {
            proof {
                crate::text::lemma_index_of_from(seg@, '[', 0);
            }
            let key = string_from_chars(seg, 0, i);
            let n = seg.len();
            let ghost rest = seg@.subrange(i + 1, n as int);
            let idx = if i + 1 < n && seg[n - 1] == ']' {
                assert(rest.drop_last() =~= seg@.subrange(i + 1, n - 1));
                parse_index(seg, i + 1, n - 1)
            } else {
                None
            };
            assert(seg@.subrange(0, n as int) =~= seg@);
            (key, idx)
        },
    }
}

fn index_into<'a>(v: &'a MetaValue, idx: Option<usize>) -> (r: Option<&'a MetaValue>)
    ensures
        match index_step(v@, match idx { Some(i) => Some(i as nat), None => None }) {
            Some(x) => r matches Some(y) && y@ == x,
            None => r is None,
        },
{
    proof {
        lemma_value_view_parts(*v);
    }
    match idx {
        None => Some(v),
        Some(i) => match &v.data {
            MetaData::Array(a) => if i < a.len() {
                Some(&a[i])
            } else {
                None
            },
            _ => None,
        },
    }
}

/// The value at a dot/bracket path (`author.team`, `authors[0].role`).
pub fn get_path<'a>(metadata: &'a Vec<(String, MetaValue)>, path: &str) -> (r: Option<&'a MetaValue>)
    ensures
        match get_path_spec(table_view(metadata@), path@) {
            Some(v) => r matches Some(x) && x@ == v,
            None => r is None,
        },
{
    let chars = chars_of(path);
    let parts = split_chars(&chars, '.');
    let ghost pv = split_char(path@, '.');
    assert(split_from(path@, '.', 0, 0).len() >= 1) by {
        lemma_split_from_nonempty(path@, '.', 0, 0);
    }
    let (key, idx) = split_index_chars(&parts[0]);
    let first = match table_get(metadata, key.as_str()) {
        Some(v) => v,
        None => {
            return None;
        },
    };
    let mut value = match index_into(first, idx) {
        Some(v) => v,
        None => {
            return None;
        },
    };
    let mut k: usize = 1;
    while k < parts.len()
        invariant
            1 <= k <= parts@.len(),
            parts@.len() == pv.len(),
            forall|j: int| 0 <= j < parts@.len() ==> (#[trigger] parts@[j])@ == pv[j],
            get_path_spec(table_view(metadata@), path@) == walk_path(value@, pv, k as int),
        decreases parts.len() - k,
    {
        proof {
            lemma_value_view_parts(*value);
        }
        let (key, idx) = split_index_chars(&parts[k]);
        let table = match &value.data {
            MetaData::Table(t) => t,
            _ => {
                return None;
            },
        };
        let next = match table_get(table, key.as_str()) {
            Some(v) => v,
            None => {
                return None;
            },
        };
        value = match index_into(next, idx) {
            Some(v) => v,
            None => {
                return None;
            },
        };
        k += 1;
    }
    Some(value)
}

pub proof fn lemma_split_from_nonempty(s: Seq<char>, c: char, i: int, start: int)
    ensures
        split_from(s, c, i, start).len() >= 1,
    decreases s.len() - i,
{
    if 0 <= i < s.len() {
        lemma_split_from_nonempty(s, c, i + 1, if s[i] == c { i + 1 } else { start });
    }
}

fn type_str_of(v: &MetaValue) -> (r: &'static str)
    ensures
        r@ == type_str(v@),
{
    match &v.data {
        MetaData::String(_) => "string",
        MetaData::Integer(_) => "integer",
        MetaData::Float(_) => "float",
        MetaData::Boolean(_) => "boolean",
        MetaData::Datetime(_) => "datetime",
        MetaData::Array(_) => "array",
        MetaData::Table(_) => "table",
    }
}

impl ValidationRule {
    /// Whether the rule's condition holds for `metadata`: every condition
    /// path present with an equal value. A condition value of another type
    /// than the metadata's is an error; a missing path makes the rule not
    /// apply.
    pub fn applies(&self, metadata: &Vec<(String, MetaValue)>) -> (r: Result<bool, ValidationError>)
        ensures
            match applies_from(table_view(self.condition@), table_view(metadata@), 0, true) {
                Ok(b) => r == Ok::<bool, ValidationError>(b),
                Err(e) => r matches Err(x) && x@ == e,
            },
    {
        let ghost cv = table_view(self.condition@);
        let ghost mv = table_view(metadata@);
        let mut acc = true;
        let mut i: usize = 0;
        while i < self.condition.len()
            invariant
                i <= self.condition@.len(),
                cv == table_view(self.condition@),
                mv == table_view(metadata@),
                applies_from(cv, mv, 0, true) == applies_from(cv, mv, i as int, acc),
            decreases self.condition.len() - i,
        {
            let field = &self.condition[i].0;
            let expected = &self.condition[i].1;
            match get_path(metadata, field.as_str()) {
                Some(actual) => {
                    let te = type_str_of(expected);
                    let ta = type_str_of(actual);
                    if !str_equal(ta, te) {
                        let mut m = String::from_str("Type mismatch in condition field '");
                        m.append(field.as_str());
                        m.append("': expected ");
                        m.append(te);
                        m.append(", got ");
                        m.append(ta);
                        return Err(ValidationError::RuleConditionFailed { message: m });
                    }
                    acc = acc && values_equal(actual, expected);
                },
                None => {
                    acc = false;
                },
            }
            i += 1;
        }
        Ok(acc)
    }

    /// The condition fields the metadata lacks, in order, as far as
    /// [`applies`](Self::applies) gets before a type mismatch stops it:
    /// the fields to warn about (see [`missing_from`]).
    pub fn missing_condition_fields(&self, metadata: &Vec<(String, MetaValue)>) -> (r: Vec<String>)
        ensures
            strings_view(r@) == missing_from(table_view(self.condition@), table_view(metadata@), 0),
    {
        let ghost cv = table_view(self.condition@);
        let ghost mv = table_view(metadata@);
        let mut out: Vec<String> = Vec::new();
        let mut i: usize = 0;
        while i < self.condition.len()
            invariant
                i <= self.condition@.len(),
                cv == table_view(self.condition@),
                mv == table_view(metadata@),
                missing_from(cv, mv, 0) == strings_view(out@) + missing_from(cv, mv, i as int),
            decreases self.condition.len() - i,
        {
            let field = &self.condition[i].0;
            let expected = &self.condition[i].1;
            match get_path(metadata, field.as_str()) {
                Some(actual) => {
                    let te = type_str_of(expected);
                    let ta = type_str_of(actual);
                    if !str_equal(ta, te) {
                        assert(missing_from(cv, mv, i as int) =~= seq![]);
                        assert(strings_view(out@) + seq![] =~= strings_view(out@));
                        return out;
                    }
                },
                None => {
                    let ghost before = strings_view(out@);
                    out.push(field.clone());
                    assert(strings_view(out@) =~= before.push(cv[i as int].0));
                    assert(before + missing_from(cv, mv, i as int) =~= strings_view(out@)
                        + missing_from(cv, mv, i + 1));
                },
            }
            i += 1;
        }
        assert(strings_view(out@) + seq![] =~= strings_view(out@));
        out
    }
}


// ---------------------------------------------------------------------
// Laws of validation and rules
// ---------------------------------------------------------------------

/// The error of member `j` of an object schema against table `t`: none
/// when the table lacks it, else what its own definition says of its value
/// (under the name `field.key`).
pub open spec fn member_error(schema: Seq<(Seq<char>, DefV)>, t: Seq<(Seq<char>, ValueV)>, field: Seq<char>, j: int) -> Option<ErrorV> {
    match lookup(t, schema[j].0) {
        Some(v) => match validate_spec(schema[j].1, v, member_name(field, schema[j].0)) {
            Err(e) => Some(e),
            Ok(()) => None,
        },
        None => None,
    }
}

proof fn lemma_members_from(schema: Seq<(Seq<char>, DefV)>, t: Seq<(Seq<char>, ValueV)>, field: Seq<char>, i: int)
    requires
        0 <= i <= schema.len(),
    ensures
        validate_members(schema, t, field, i) is Ok <==> forall|j: int|
            i <= j < schema.len() ==> #[trigger] member_error(schema, t, field, j) is None,
        validate_members(schema, t, field, i) matches Err(e) ==> exists|j: int|
            i <= j < schema.len() && (forall|k: int|
                i <= k < j ==> #[trigger] member_error(schema, t, field, k) is None)
                && #[trigger] member_error(schema, t, field, j) == Some(e),
    decreases schema.len() - i,
{
    if i < schema.len() {
        lemma_members_from(schema, t, field, i + 1);
        if member_error(schema, t, field, i) is None {
            assert(validate_members(schema, t, field, i) == validate_members(schema, t, field, i + 1));
            if validate_members(schema, t, field, i) is Err {
                let e = validate_members(schema, t, field, i)->Err_0;
                let j = choose|j: int|
                    i + 1 <= j < schema.len() && (forall|k: int|
                        i + 1 <= k < j ==> #[trigger] member_error(schema, t, field, k) is None)
                        && #[trigger] member_error(schema, t, field, j) == Some(e);
                assert forall|k: int| i <= k < j implies #[trigger] member_error(schema, t, field, k) is None by {
                    if k == i {
                    }
                }
            }
        } else {
            assert(validate_members(schema, t, field, i) == Err::<(), ErrorV>(
                member_error(schema, t, field, i)->0,
            ));
        }
    }
}

/// An object is valid exactly when every member of its schema that the
/// table holds is valid against its own definition (under the name
/// `field.key`); members the table lacks are not checked here. When it is
/// not valid, the error is that of the first such member that fails.
pub proof fn lemma_object_checks_every_member(
    schema: Seq<(Seq<char>, DefV)>,
    t: Seq<(Seq<char>, ValueV)>,
    text: Seq<char>,
    field: Seq<char>,
)
    ensures
        validate_spec(DefV::Object { schema }, ValueV { data: DataV::Table(t), text }, field) is Ok
            <==> forall|j: int| 0 <= j < schema.len() ==> #[trigger] member_error(schema, t, field, j) is None,
        validate_spec(DefV::Object { schema }, ValueV { data: DataV::Table(t), text }, field) matches Err(
            e,
        ) ==> exists|j: int|
            0 <= j < schema.len() && (forall|k: int|
                0 <= k < j ==> #[trigger] member_error(schema, t, field, k) is None)
                && #[trigger] member_error(schema, t, field, j) == Some(e),
{
    lemma_members_from(schema, t, field, 0);
}

/// Some item of `arr` equals `x`.
pub open spec fn contained(arr: Seq<ValueV>, x: ValueV) -> bool {
    exists|m: int| 0 <= m < arr.len() && #[trigger] value_eq(arr[m], x)
}

proof fn lemma_holds_value(arr: Seq<ValueV>, x: ValueV, j: int)
    requires
        0 <= j,
    ensures
        holds_value(arr, x, j) <==> exists|m: int| j <= m < arr.len() && #[trigger] value_eq(arr[m], x),
    decreases arr.len() - j,
{
    if j < arr.len() {
        lemma_holds_value(arr, x, j + 1);
        if exists|m: int| j <= m < arr.len() && #[trigger] value_eq(arr[m], x) {
            let m = choose|m: int| j <= m < arr.len() && #[trigger] value_eq(arr[m], x);
            if m > j {
                assert(j + 1 <= m);
            }
        }
    }
}

proof fn lemma_first_missing(req: Seq<ValueV>, arr: Seq<ValueV>, k: int)
    requires
        0 <= k,
    ensures
        first_missing(req, arr, k) is None <==> forall|n: int|
            k <= n < req.len() ==> #[trigger] contained(arr, req[n]),
    decreases req.len() - k,
{
    if k < req.len() {
        lemma_holds_value(arr, req[k], 0);
        lemma_first_missing(req, arr, k + 1);
        assert(holds_value(arr, req[k], 0) == contained(arr, req[k]));
        if forall|n: int| k + 1 <= n < req.len() ==> #[trigger] contained(arr, req[n]) {
            if holds_value(arr, req[k], 0) {
                assert forall|n: int| k <= n < req.len() implies #[trigger] contained(arr, req[n]) by {
                    if n == k {
                    }
                }
            }
        }
    }
}

proof fn lemma_items_from(d: DefV, arr: Seq<ValueV>, field: Seq<char>, i: int)
    requires
        0 <= i,
    ensures
        validate_items(d, arr, field, i) is Ok <==> forall|n: int|
            i <= n < arr.len() ==> #[trigger] validate_spec(d, arr[n], item_name(field, n as nat)) is Ok,
    decreases arr.len() - i,
{
    if i < arr.len() {
        lemma_items_from(d, arr, field, i + 1);
        if validate_spec(d, arr[i], item_name(field, i as nat)) is Ok {
            if forall|n: int|
                i + 1 <= n < arr.len() ==> #[trigger] validate_spec(d, arr[n], item_name(field, n as nat)) is Ok {
                assert forall|n: int| i <= n < arr.len() implies #[trigger] validate_spec(
                    d,
                    arr[n],
                    item_name(field, n as nat),
                ) is Ok by {
                    if n == i {
                    }
                }
            }
        }
    }
}

/// An array is valid exactly when it holds every value it must contain
/// (each equal to one of its items), has at least and at most as many
/// items as the bounds say, and every item is valid against the item
/// definition (under the name `field[i]`).
pub proof fn lemma_array_checks_every_item(
    items: DefV,
    min_items: Option<usize>,
    max_items: Option<usize>,
    must_contain: Option<Seq<ValueV>>,
    arr: Seq<ValueV>,
    text: Seq<char>,
    field: Seq<char>,
)
    ensures
        validate_spec(
            DefV::Array { items: Box::new(items), min_items, max_items, must_contain },
            ValueV { data: DataV::Array(arr), text },
            field,
        ) is Ok <==> {
            &&& must_contain matches Some(req) ==> forall|n: int|
                0 <= n < req.len() ==> #[trigger] contained(arr, req[n])
            &&& min_items matches Some(lo) ==> arr.len() >= lo
            &&& max_items matches Some(hi) ==> arr.len() <= hi
            &&& forall|n: int|
                0 <= n < arr.len() ==> #[trigger] validate_spec(items, arr[n], item_name(field, n as nat)) is Ok
        },
{
    match must_contain {
        Some(req) => lemma_first_missing(req, arr, 0),
        None => {},
    }
    lemma_items_from(items, arr, field, 0);
}

/// Condition `j` holds for the metadata: its path is present with a value
/// of the same type that equals the condition's.
pub open spec fn condition_met(cond: Seq<(Seq<char>, ValueV)>, md: Seq<(Seq<char>, ValueV)>, j: int) -> bool {
    get_path_spec(md, cond[j].0) matches Some(a) && type_str(a) == type_str(cond[j].1) && value_eq(
        a,
        cond[j].1,
    )
}

/// Condition `j` names a present value of another type than the
/// condition's.
pub open spec fn condition_clashes(cond: Seq<(Seq<char>, ValueV)>, md: Seq<(Seq<char>, ValueV)>, j: int) -> bool {
    get_path_spec(md, cond[j].0) matches Some(a) && type_str(a) != type_str(cond[j].1)
}

proof fn lemma_applies_from(cond: Seq<(Seq<char>, ValueV)>, md: Seq<(Seq<char>, ValueV)>, i: int, acc: bool)
    requires
        0 <= i <= cond.len(),
    ensures
        applies_from(cond, md, i, acc) == Ok::<bool, ErrorV>(true) <==> acc && forall|j: int|
            i <= j < cond.len() ==> #[trigger] condition_met(cond, md, j),
        applies_from(cond, md, i, acc) is Err <==> exists|j: int|
            i <= j < cond.len() && #[trigger] condition_clashes(cond, md, j),
    decreases cond.len() - i,
{
    if i < cond.len() {
        match get_path_spec(md, cond[i].0) {
            Some(actual) => if type_str(actual) != type_str(cond[i].1) {
                assert(condition_clashes(cond, md, i));
                assert(!condition_met(cond, md, i));
            } else {
                lemma_applies_from(cond, md, i + 1, acc && value_eq(actual, cond[i].1));
                assert(!condition_clashes(cond, md, i));
                if exists|j: int| i <= j < cond.len() && #[trigger] condition_clashes(cond, md, j) {
                    let j = choose|j: int| i <= j < cond.len() && #[trigger] condition_clashes(cond, md, j);
                    assert(j != i);
                }
                if acc && forall|j: int| i <= j < cond.len() ==> #[trigger] condition_met(cond, md, j) {
                    assert(condition_met(cond, md, i));
                }
            },
            None => {
                lemma_applies_from(cond, md, i + 1, false);
                assert(!condition_met(cond, md, i));
                assert(!condition_clashes(cond, md, i));
                if exists|j: int| i <= j < cond.len() && #[trigger] condition_clashes(cond, md, j) {
                    let j = choose|j: int| i <= j < cond.len() && #[trigger] condition_clashes(cond, md, j);
                    assert(j != i);
                }
            },
        }
    }
}

/// A rule applies exactly when every one of its conditions is met: its
/// path present in the metadata, with a value of the same type equal to
/// the condition's. One absent or different condition makes the answer
/// `false`, unless some condition's value has another type than the
/// metadata's, which is an error.
pub proof fn lemma_rule_applies_iff_all_conditions(cond: Seq<(Seq<char>, ValueV)>, md: Seq<(Seq<char>, ValueV)>)
    ensures
        applies_from(cond, md, 0, true) == Ok::<bool, ErrorV>(true) <==> forall|j: int|
            0 <= j < cond.len() ==> #[trigger] condition_met(cond, md, j),
        applies_from(cond, md, 0, true) is Err <==> exists|j: int|
            0 <= j < cond.len() && #[trigger] condition_clashes(cond, md, j),
{
    lemma_applies_from(cond, md, 0, true);
}

} // verus!
