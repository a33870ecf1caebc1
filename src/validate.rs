use vstd::prelude::*;
use vstd::string::StringSliceAdditionalSpecFns;

use crate::error::{
    combine, decimal, rendered_lines, lemma_lines_push, kind_message, push_field, push_index, rendered, SchemaError, SchemaErrorKind,
};
use crate::limit::Limit;
use crate::schema::{DataType, Property, YamlSchema};
use crate::value::{
    Problem, shows, type_tag,
    find_key, has_key, is_wrong_type, key_is, missing_problems, reports_all, strict_problems, views, Value,
};

verus! {

/// How many references one validation follows in a chain before it gives up.
pub const MAX_REFERENCE_DEPTH: usize = 64;

/// The schemas that references are resolved against.
#[derive(Debug)]
pub struct YamlContext {
    pub schemas: Vec<YamlSchema>,
}

/// The first schema of `s` registered under `uri`.
pub open spec fn schema_for(s: Seq<YamlSchema>, uri: Seq<char>) -> Option<YamlSchema>
    decreases s.len(),
{
    if s.len() == 0 {
        None
    } else if s[0].uri matches Some(u) && u@ == uri {
        Some(s[0])
    } else {
        schema_for(s.drop_first(), uri)
    }
}

pub open spec fn ctx_view(ctx: Option<&YamlContext>) -> Option<Seq<YamlSchema>> {
    match ctx {
        Some(c) => Some(c.schemas@),
        None => None,
    }
}

/// The value of the first entry of `h` keyed by the string `name`.
pub open spec fn lookup_in(h: Seq<(Value, Value)>, name: Seq<char>) -> Option<Value>
    decreases h.len(),
{
    if h.len() == 0 {
        None
    } else if key_is(h[0].0, name) {
        Some(h[0].1)
    } else {
        lookup_in(h.drop_first(), name)
    }
}

/// `n` is under the upper and over the lower endpoint, where given.
pub open spec fn within(lower: Option<Limit>, upper: Option<Limit>, n: int) -> bool {
    (match upper {
        Some(u) => u.spec_is_lesser(n),
        None => true,
    }) && (match lower {
        Some(l) => l.spec_is_greater(n),
        None => true,
    })
}

/// The names of `fields`, in order.
pub open spec fn field_names(fields: Seq<Property>) -> Seq<Seq<char>> {
    fields.map_values(|p: Property| p.name@)
}

/// The message for a count `n` outside its endpoints: the upper endpoint is
/// checked first.
pub open spec fn bound_message(
    what: Seq<char>,
    over: Seq<char>,
    under: Seq<char>,
    lower: Option<Limit>,
    upper: Option<Limit>,
    n: int,
) -> Seq<char> {
    match upper {
        Some(u) if !u.spec_is_lesser(n) => what + " "@ + over + ", max is "@ + decimal(u.threshold())
            + ", but "@ + what + " is "@ + decimal(n),
        _ => match lower {
            Some(l) => what + " "@ + under + ", min is "@ + decimal(l.threshold()) + ", but "@ + what
                + " is "@ + decimal(n),
            None => Seq::empty(),
        },
    }
}

/// `e` reports a count outside its endpoints at `path`.
pub open spec fn is_bound_error(e: SchemaError, msg: Seq<char>, path: Seq<char>) -> bool {
    e.path@ == path && (e.kind matches SchemaErrorKind::StringValidationError { error } && error@
        == msg)
}

/// The text of a wrong-type error at `path`.
pub open spec fn wrong_text(path: Seq<char>, expected: Seq<char>, v: Value) -> Seq<char> {
    path + ": "@ + ("wrong type, expected '"@ + expected + "' got '"@ + type_tag(v) + "'"@)
}

/// Another line of a report: the count of lines and the text so far.
pub open spec fn add_line(acc: (nat, Seq<char>), line: Seq<char>) -> (nat, Seq<char>) {
    if acc.0 == 0 {
        (1, line)
    } else {
        ((acc.0 + 1) as nat, acc.1 + "\n"@ + line)
    }
}

/// The text that reports discrepancy `p` of a map at `path`.
pub open spec fn problem_line(p: Problem, path: Seq<char>) -> Seq<char> {
    path + ": "@ + match p {
        Problem::Missing(f) => "missing field, '"@ + f + "' not found"@,
        Problem::Extra(f) => "extra field, '"@ + f + "' is not allowed"@,
        Problem::KeyType(t) => "wrong type, expected '"@ + "string"@ + "' got '"@ + t + "'"@,
    }
}

/// The lines that report `probs`, one per problem.
pub open spec fn problems_text(probs: Seq<Problem>, path: Seq<char>) -> Seq<char>
    decreases probs.len(),
{
    if probs.len() == 0 {
        Seq::empty()
    } else if probs.len() == 1 {
        problem_line(probs[0], path)
    } else {
        problems_text(probs.drop_last(), path) + "\n"@ + problem_line(probs.last(), path)
    }
}

/// The text that validating `v` against `t` at `path` reports when it fails:
/// one line per failing node, in document order.
pub open spec fn report(
    t: DataType,
    v: Value,
    ctx: Option<Seq<YamlSchema>>,
    depth: nat,
    path: Seq<char>,
) -> Seq<char>
    decreases depth, t, 0int,
{
    match t {
        DataType::String { min_length, max_length } => match v {
            Value::String(s) => if s@.len() > i64::MAX {
                path + ": "@ + ("string validation error: "@ + "string too long"@)
            } else {
                path + ": "@ + ("string validation error: "@ + bound_message(
                    "string"@,
                    "too long"@,
                    "too short"@,
                    min_length,
                    max_length,
                    s@.len() as int,
                ))
            },
            _ => wrong_text(path, "string"@, v),
        },
        DataType::Number { min, max, integral } => match v {
            Value::Integer(n) => path + ": "@ + ("string validation error: "@ + bound_message(
                "number"@,
                "too large"@,
                "too small"@,
                min,
                max,
                n as int,
            )),
            Value::Real(_) => if integral {
                path + ": "@ + ("malformed field: "@ + "an integer was required"@)
            } else {
                path + ": "@ + ("malformed field: "@
                    + "a real value cannot be checked against integer bounds"@)
            },
            _ => wrong_text(path, "number"@, v),
        },
        DataType::Boolean => wrong_text(path, "boolean"@, v),
        DataType::List { inner } => match v {
            Value::Array(a) => list_report(*inner, a@, a@.len() as int, ctx, depth, path).1,
            _ => wrong_text(path, "array"@, v),
        },
        DataType::Dictionary { value } => match v {
            Value::Hash(h) => dict_report(value, h@, h@.len() as int, ctx, depth, path).1,
            _ => wrong_text(path, "hash"@, v),
        },
        DataType::Object { fields } => fields_report(fields@, v, ctx, depth, path),
        DataType::Reference { uri } => match ctx {
            None => path + ": "@ + ("no context supplied to resolve reference '"@ + uri@ + "'"@),
            Some(c) => match schema_for(c, uri@) {
                None => path + ": "@ + ("reference not found: '"@ + uri@ + "'"@),
                Some(s) => if depth == 0 {
                    path + ": "@ + "maximum nesting depth exceeded"@
                } else {
                    fields_report(s.schema@, v, ctx, (depth - 1) as nat, path)
                },
            },
        },
    }
}

/// The report of the first `n` elements of a list.
pub open spec fn list_report(
    inner: DataType,
    a: Seq<Value>,
    n: int,
    ctx: Option<Seq<YamlSchema>>,
    depth: nat,
    path: Seq<char>,
) -> (nat, Seq<char>)
    decreases depth, inner, n,
{
    if n <= 0 || n > a.len() {
        (0, Seq::empty())
    } else {
        let acc = list_report(inner, a, n - 1, ctx, depth, path);
        if conforms(inner, a[n - 1], ctx, depth) {
            acc
        } else {
            add_line(acc, report(inner, a[n - 1], ctx, depth, path + "["@ + decimal(n - 1) + "]"@))
        }
    }
}

/// The report of the first `n` entries of a dictionary.
pub open spec fn dict_report(
    value: Option<Box<DataType>>,
    h: Seq<(Value, Value)>,
    n: int,
    ctx: Option<Seq<YamlSchema>>,
    depth: nat,
    path: Seq<char>,
) -> (nat, Seq<char>)
    decreases depth, value, n,
{
    if n <= 0 || n > h.len() {
        (0, Seq::empty())
    } else {
        let acc = dict_report(value, h, n - 1, ctx, depth, path);
        match h[n - 1].0 {
            Value::String(key) => match value {
                Some(b) => if conforms(*b, h[n - 1].1, ctx, depth) {
                    acc
                } else {
                    add_line(acc, report(*b, h[n - 1].1, ctx, depth, path + "."@ + key@))
                },
                None => acc,
            },
            other => add_line(acc, wrong_text(path, "string"@, other)),
        }
    }
}

/// The report of validating `v` against the fields of an object.
pub open spec fn fields_report(
    fields: Seq<Property>,
    v: Value,
    ctx: Option<Seq<YamlSchema>>,
    depth: nat,
    path: Seq<char>,
) -> Seq<char>
    decreases depth, fields, fields.len() + 1,
{
    match v {
        Value::Hash(h) => {
            let probs = strict_problems(h@, field_names(fields), Seq::empty());
            if probs.len() > 0 {
                problems_text(probs, path)
            } else {
                fields_lines(fields, h@, fields.len() as int, ctx, depth, path).1
            }
        },
        _ => wrong_text(path, "hash"@, v),
    }
}

/// The report of the first `n` fields of an object whose keys match.
pub open spec fn fields_lines(
    fields: Seq<Property>,
    h: Seq<(Value, Value)>,
    n: int,
    ctx: Option<Seq<YamlSchema>>,
    depth: nat,
    path: Seq<char>,
) -> (nat, Seq<char>)
    decreases depth, fields, n,
{
    if n <= 0 || n > fields.len() {
        (0, Seq::empty())
    } else {
        let acc = fields_lines(fields, h, n - 1, ctx, depth, path);
        let f = fields[n - 1];
        let x = lookup_in(h, f.name@)->0;
        if conforms(f.data, x, ctx, depth) {
            acc
        } else {
            add_line(acc, report(f.data, x, ctx, depth, path + "."@ + f.name@))
        }
    }
}

proof fn lemma_shows_line(e: SchemaError, p: Problem, path: Seq<char>)
    requires
        shows(e, p, path),
    ensures
        rendered(e) == problem_line(p, path),
{
}

proof fn lemma_problem_lines(errs: Seq<SchemaError>, probs: Seq<Problem>, path: Seq<char>)
    requires
        errs.len() == probs.len(),
        forall|i: int| 0 <= i < probs.len() ==> shows(#[trigger] errs[i], probs[i], path),
    ensures
        rendered_lines(errs) == problems_text(probs, path),
    decreases probs.len(),
{
    if probs.len() > 0 {
        let n = probs.len() - 1;
        lemma_shows_line(errs[n], probs[n], path);
        if probs.len() > 1 {
            let (e0, p0) = (errs.drop_last(), probs.drop_last());
            assert forall|i: int| 0 <= i < p0.len() implies shows(#[trigger] e0[i], p0[i], path) by {
                assert(e0[i] == errs[i]);
            }
            lemma_problem_lines(e0, p0, path);
        }
    }
}

/// An error that reports the problems of a map renders as their lines.
proof fn lemma_reports_text(e: SchemaError, probs: Seq<Problem>, path: Seq<char>)
    requires
        probs.len() > 0,
        reports_all(e, probs, path),
    ensures
        rendered(e) == problems_text(probs, path),
{
    if probs.len() == 1 {
        lemma_shows_line(e, probs[0], path);
    } else {
        lemma_problem_lines(e.kind->Multiple_errors@, probs, path);
    }
}

/// The document node `v` meets the constraint `t`, following at most `depth`
/// references in a chain.
pub open spec fn conforms(t: DataType, v: Value, ctx: Option<Seq<YamlSchema>>, depth: nat) -> bool
    decreases depth, t,
{
    match t {
        DataType::String { min_length, max_length } => v matches Value::String(s) && within(
            min_length,
            max_length,
            s@.len() as int,
        ),
        DataType::Number { min, max, integral } => match v {
            Value::Integer(n) => within(min, max, n as int),
            Value::Real(_) => !integral && min is None && max is None,
            _ => false,
        },
        DataType::Boolean => v is Boolean,
        DataType::List { inner } => v matches Value::Array(a) && forall|k: int|
            0 <= k < a@.len() ==> conforms(*inner, #[trigger] a@[k], ctx, depth),
        DataType::Dictionary { value } => v matches Value::Hash(h) && forall|k: int|
            0 <= k < h@.len() ==> (#[trigger] h@[k]).0 is String && match value {
                Some(b) => conforms(*b, h@[k].1, ctx, depth),
                None => true,
            },
        DataType::Object { fields } => fields_conform(fields@, v, ctx, depth),
        DataType::Reference { uri } => depth > 0 && match ctx {
            Some(c) => match schema_for(c, uri@) {
                Some(s) => fields_conform(s.schema@, v, ctx, (depth - 1) as nat),
                None => false,
            },
            None => false,
        },
    }
}

/// `v` is a map whose keys are exactly the names of `fields`, each value
/// meeting its field's constraint.
pub open spec fn fields_conform(
    fields: Seq<Property>,
    v: Value,
    ctx: Option<Seq<YamlSchema>>,
    depth: nat,
) -> bool
    decreases depth, fields,
{
    v matches Value::Hash(h) && strict_problems(h@, field_names(fields), Seq::empty()).len() == 0
        && forall|k: int|
        0 <= k < fields.len() ==> conforms(
            (#[trigger] fields[k]).data,
            lookup_in(h@, fields[k].name@)->0,
            ctx,
            depth,
        )
}

pub(crate) proof fn lemma_lookup_first(h: Seq<(Value, Value)>, name: Seq<char>, i: int)
    requires
        0 <= i < h.len(),
        key_is(h[i].0, name),
        forall|j: int| 0 <= j < i ==> !key_is(#[trigger] h[j].0, name),
    ensures
        lookup_in(h, name) == Some(h[i].1),
    decreases i,
{
    if i > 0 {
        assert(!key_is(h[0].0, name));
        let t = h.drop_first();
        assert forall|j: int| 0 <= j < i - 1 implies !key_is(#[trigger] t[j].0, name) by {
            assert(t[j] == h[j + 1]);
        }
        lemma_lookup_first(t, name, i - 1);
    }
}

pub(crate) proof fn lemma_lookup_none(h: Seq<(Value, Value)>, name: Seq<char>)
    requires
        forall|j: int| 0 <= j < h.len() ==> !key_is(#[trigger] h[j].0, name),
    ensures
        lookup_in(h, name) is None,
    decreases h.len(),
{
    if h.len() > 0 {
        assert(!key_is(h[0].0, name));
        let t = h.drop_first();
        assert forall|j: int| 0 <= j < t.len() implies !key_is(#[trigger] t[j].0, name) by {
            assert(t[j] == h[j + 1]);
        }
        lemma_lookup_none(t, name);
    }
}

/// A map that lacks a declared field, where every field declared before it
/// is present and valid, fails at the object's own path with the text
/// `<path>: missing field, '<f>' not found`.
pub proof fn lemma_missing_field_text(
    fields: Seq<Property>,
    k: int,
    path: Seq<char>,
    e: SchemaError,
)
    requires
        0 <= k < fields.len(),
        e.path@ == path,
        e.kind matches SchemaErrorKind::FieldMissing { field } && field@ == fields[k].name@,
    ensures
        rendered(e) == path + ": "@ + "missing field, '"@ + fields[k].name@ + "' not found"@,
{
    let f = fields[k].name@;
    let m = kind_message(e.kind);
    assert(m == "missing field, '"@ + f + "' not found"@);
    assert(rendered(e) == path + ": "@ + m);
    vstd::seq_lib::lemma_concat_associative(path + ": "@, "missing field, '"@ + f, "' not found"@);
    vstd::seq_lib::lemma_concat_associative(path + ": "@, "missing field, '"@, f);
}

/// A map with no missing required name has every required name as a key.
pub(crate) proof fn lemma_missing_empty(h: Seq<(Value, Value)>, required: Seq<Seq<char>>)
    requires
        missing_problems(h, required).len() == 0,
    ensures
        forall|k: int| 0 <= k < required.len() ==> has_key(h, #[trigger] required[k]),
    decreases required.len(),
{
    if required.len() > 0 {
        let init = required.drop_last();
        lemma_missing_empty(h, init);
        assert forall|k: int| 0 <= k < required.len() implies has_key(h, #[trigger] required[k]) by {
            if k < init.len() {
                assert(required[k] == init[k]);
            }
        }
    }
}

impl YamlContext {
    /// A context holding `schemas` in the order given; a uri registered twice
    /// resolves to its first schema.
    pub fn from_schemas(schemas: Vec<YamlSchema>) -> (r: YamlContext)
        ensures
            r.schemas@ == schemas@,
    {
        YamlContext { schemas }
    }

    pub fn get_schema(&self, uri: &String) -> (r: Option<&YamlSchema>)
        ensures
            match r {
                Some(s) => schema_for(self.schemas@, uri@) == Some(*s),
                None => schema_for(self.schemas@, uri@) is None,
            },
    {
        let mut i: usize = 0;
        assert(self.schemas@.subrange(0, self.schemas@.len() as int) =~= self.schemas@);
        while i < self.schemas.len()
            invariant
                i <= self.schemas@.len(),
                schema_for(self.schemas@.subrange(i as int, self.schemas@.len() as int), uri@)
                    == schema_for(self.schemas@, uri@),
            decreases self.schemas.len() - i,
        {
            let ghost rest = self.schemas@.subrange(i as int, self.schemas@.len() as int);
            assert(rest[0] == self.schemas@[i as int]);
            let hit = match &self.schemas[i].uri {
                Some(u) => *u == *uri,
                None => false,
            };
            if hit {
                return Some(&self.schemas[i]);
            }
            assert(rest.drop_first() =~= self.schemas@.subrange(
                i + 1,
                self.schemas@.len() as int,
            ));
            i = i + 1;
        }
        None
    }
}

fn string_error(error: String, path: &String) -> (e: SchemaError)
    ensures
        e.path@ == path@,
        e.kind == (SchemaErrorKind::StringValidationError { error }),
{
    SchemaError::new(SchemaErrorKind::StringValidationError { error }, path)
}

/// Checks a count or a value against its endpoints, upper first; `what`
/// names the quantity in the message, `over` and `under` the two failures.
fn check_within(
    lower: &Option<Limit>,
    upper: &Option<Limit>,
    n: i64,
    what: &str,
    over: &str,
    under: &str,
    path: &String,
) -> (r: Result<(), SchemaError>)
    ensures
        r is Ok <==> within(*lower, *upper, n as int),
        r matches Err(e) ==> is_bound_error(
            e,
            bound_message(what@, over@, under@, *lower, *upper, n as int),
            path@,
        ),
{
    if let Some(u) = upper {
        if !u.is_lesser(&n) {
            let mut error = what.to_owned();
            error.append(" ");
            error.append(over);
            error.append(", max is ");
            error.append(crate::error::int_text(u.threshold_value() as i128).as_str());
            error.append(", but ");
            error.append(what);
            error.append(" is ");
            error.append(crate::error::int_text(n as i128).as_str());
            assert(error@ =~= bound_message(what@, over@, under@, *lower, *upper, n as int));
            return Err(string_error(error, path));
        }
    }
    if let Some(l) = lower {
        if !l.is_greater(&n) {
            let mut error = what.to_owned();
            error.append(" ");
            error.append(under);
            error.append(", min is ");
            error.append(crate::error::int_text(l.threshold_value() as i128).as_str());
            error.append(", but ");
            error.append(what);
            error.append(" is ");
            error.append(crate::error::int_text(n as i128).as_str());
            assert(error@ =~= bound_message(what@, over@, under@, *lower, *upper, n as int));
            return Err(string_error(error, path));
        }
    }
    Ok(())
}

/// Validates the document node `v` at `path` against `t`.
#[verifier::rlimit(80)]
pub fn validate(
    t: &DataType,
    v: &Value,
    ctx: Option<&YamlContext>,
    path: &String,
    depth: usize,
) -> (r: Result<(), SchemaError>)
    ensures
        r is Ok <==> conforms(*t, *v, ctx_view(ctx), depth as nat),
        r matches Err(e) ==> rendered(e) == report(*t, *v, ctx_view(ctx), depth as nat, path@),
        (t is String && !(v is String)) ==> (r matches Err(e) && is_wrong_type(e, "string"@, *v, path@)),
        (t is Boolean && !(v is Boolean)) ==> (r matches Err(e) && is_wrong_type(e, "boolean"@, *v, path@)),
        (t is Number && !(v is Integer || v is Real)) ==> (r matches Err(e) && is_wrong_type(
            e,
            "number"@,
            *v,
            path@,
        )),
        (t is List && !(v is Array)) ==> (r matches Err(e) && is_wrong_type(e, "array"@, *v, path@)),
        (t is Dictionary && !(v is Hash)) ==> (r matches Err(e) && is_wrong_type(e, "hash"@, *v, path@)),
        match (*t, *v) {
            (DataType::String { min_length, max_length }, Value::String(s)) => (s@.len() <= i64::MAX
                && !within(min_length, max_length, s@.len() as int)) ==> (r matches Err(e)
                && is_bound_error(
                e,
                bound_message(
                    "string"@,
                    "too long"@,
                    "too short"@,
                    min_length,
                    max_length,
                    s@.len() as int,
                ),
                path@,
            )),
            (DataType::Number { min, max, .. }, Value::Integer(n)) => !within(min, max, n as int) ==> (
            r matches Err(e) && is_bound_error(
                e,
                bound_message("number"@, "too large"@, "too small"@, min, max, n as int),
                path@,
            )),
            (DataType::Reference { uri }, _) => match ctx {
                None => r matches Err(e) && e.path@ == path@ && (
                e.kind matches SchemaErrorKind::ContextMissing { uri: u } && u@ == uri@),
                Some(c) => match schema_for(c.schemas@, uri@) {
                    None => r matches Err(e) && e.path@ == path@ && (
                    e.kind matches SchemaErrorKind::ReferenceNotFound { uri: u } && u@ == uri@),
                    Some(_) => depth == 0 ==> (r matches Err(e) && e.path@ == path@
                        && e.kind is DepthExceeded),
                },
            },
            _ => true,
        },
    decreases depth, t,
{
    match t {
        DataType::String { min_length, max_length } => match v {
            Value::String(s) => {
                let n = s.as_str().unicode_len();
                if n as u64 > i64::MAX as u64 {
                    return match max_length {
                        Some(_) => Err(string_error("string too long".to_owned(), path)),
                        None => Ok(()),
                    };
                }
                check_within(min_length, max_length, n as i64, "string", "too long", "too short", path)
            },
            _ => Err(v.wrong_type("string", path)),
        },
        DataType::Number { min, max, integral } => match v {
            Value::Integer(n) => check_within(min, max, *n, "number", "too large", "too small", path),
            Value::Real(_) => {
                if *integral {
                    Err(
                        SchemaError::new(
                            SchemaErrorKind::MalformedField {
                                error: "an integer was required".to_owned(),
                            },
                            path,
                        ),
                    )
                } else if min.is_some() || max.is_some() {
                    Err(
                        SchemaError::new(
                            SchemaErrorKind::MalformedField {
                                error: "a real value cannot be checked against integer bounds".to_owned(),
                            },
                            path,
                        ),
                    )
                } else {
                    Ok(())
                }
            },
            _ => Err(v.wrong_type("number", path)),
        },
        DataType::Boolean => match v {
            Value::Boolean(_) => Ok(()),
            _ => Err(v.wrong_type("boolean", path)),
        },
        DataType::List { inner } => {
            let items = match v {
                Value::Array(a) => a,
                _ => {
                    return Err(v.wrong_type("array", path));
                },
            };
            let mut errors: Vec<SchemaError> = Vec::new();
            let mut k: usize = 0;
            while k < items.len()
                invariant
                    k <= items.len(),
                    *v == Value::Array(*items),
                    *t == (DataType::List { inner: *inner }),
                    errors@.len() == 0 <==> forall|j: int|
                        0 <= j < k ==> conforms(**inner, #[trigger] items@[j], ctx_view(ctx), depth as nat),
                    errors@.len() == list_report(**inner, items@, k as int, ctx_view(ctx), depth as nat, path@).0,
                    rendered_lines(errors@) == list_report(
                        **inner,
                        items@,
                        k as int,
                        ctx_view(ctx),
                        depth as nat,
                        path@,
                    ).1,
                decreases items.len() - k,
            {
                let p = push_index(path, k);
                proof {
                    assert(decreases_to!(*t => (*t)->List_inner));
                }
                let res = validate(inner, &items[k], ctx, &p, depth);
                let ghost before = errors@;
                match res {
                    Ok(()) => {},
                    Err(e) => {
                        proof {
                            lemma_lines_push(before, e);
                        }
                        errors.push(e);
                    },
                }
                assert(k + 1 - 1 == k);
                k = k + 1;
            }
            combine(errors, path)
        },
        DataType::Dictionary { value } => {
            let entries = match v {
                Value::Hash(h) => h,
                _ => {
                    return Err(v.wrong_type("hash", path));
                },
            };
            let mut errors: Vec<SchemaError> = Vec::new();
            let mut k: usize = 0;
            while k < entries.len()
                invariant
                    k <= entries.len(),
                    *v == Value::Hash(*entries),
                    *t == (DataType::Dictionary { value: *value }),
                    errors@.len() == 0 <==> forall|j: int|
                        0 <= j < k ==> (#[trigger] entries@[j]).0 is String && match *value {
                            Some(b) => conforms(*b, entries@[j].1, ctx_view(ctx), depth as nat),
                            None => true,
                        },
                    errors@.len() == dict_report(*value, entries@, k as int, ctx_view(ctx), depth as nat, path@).0,
                    rendered_lines(errors@) == dict_report(
                        *value,
                        entries@,
                        k as int,
                        ctx_view(ctx),
                        depth as nat,
                        path@,
                    ).1,
                decreases entries.len() - k,
            {
                match &entries[k].0 {
                    Value::String(key) => {
                        if let Some(b) = value {
                            let p = push_field(path, key);
                            proof {
                                assert(decreases_to!(*t => (*t)->Dictionary_value));
                                assert(decreases_to!((*t)->Dictionary_value => (
                                *t)->Dictionary_value->0));
                            }
                            match validate(b, &entries[k].1, ctx, &p, depth) {
                                Ok(()) => {},
                                Err(e) => {
                                    proof {
                                        lemma_lines_push(errors@, e);
                                    }
                                    errors.push(e);
                                },
                            }
                        }
                    },
                    other => {
                        let e = other.wrong_type("string", path);
                        proof {
                            lemma_lines_push(errors@, e);
                        }
                        errors.push(e);
                    },
                }
                k = k + 1;
            }
            combine(errors, path)
        },
        DataType::Object { fields } => validate_fields(fields, v, ctx, path, depth),
        DataType::Reference { uri } => {
            let c = match ctx {
                Some(c) => c,
                None => {
                    return Err(
                        SchemaError::new(SchemaErrorKind::ContextMissing { uri: uri.clone() }, path),
                    );
                },
            };
            let s = match c.get_schema(uri) {
                Some(s) => s,
                None => {
                    return Err(
                        SchemaError::new(
                            SchemaErrorKind::ReferenceNotFound { uri: uri.clone() },
                            path,
                        ),
                    );
                },
            };
            if depth == 0 {
                return Err(SchemaError::new(SchemaErrorKind::DepthExceeded, path));
            }
            validate_fields(&s.schema, v, ctx, path, depth - 1)
        },
    }
}

/// Validates a map against the fields of an object: its keys must be exactly
/// the field names, as `strict_contents` checks; then every field is
/// validated and all failures are reported.
#[verifier::rlimit(80)]
pub fn validate_fields(
    fields: &Vec<Property>,
    v: &Value,
    ctx: Option<&YamlContext>,
    path: &String,
    depth: usize,
) -> (r: Result<(), SchemaError>)
    ensures
        r is Ok <==> fields_conform(fields@, *v, ctx_view(ctx), depth as nat),
        r matches Err(e) ==> rendered(e) == fields_report(fields@, *v, ctx_view(ctx), depth as nat, path@),
        r matches Err(e) ==> match *v {
            Value::Hash(h) => strict_problems(h@, field_names(fields@), Seq::empty()).len() > 0
                ==> reports_all(e, strict_problems(h@, field_names(fields@), Seq::empty()), path@),
            _ => is_wrong_type(e, "hash"@, *v, path@),
        },
    decreases depth, fields,
{
    let h = match v {
        Value::Hash(h) => h,
        _ => {
            return Err(v.wrong_type("hash", path));
        },
    };
    let mut names: Vec<String> = Vec::new();
    let mut i: usize = 0;
    while i < fields.len()
        invariant
            i <= fields.len(),
            names@.len() == i,
            forall|j: int| 0 <= j < i ==> #[trigger] names@[j] == fields@[j].name,
        decreases fields.len() - i,
    {
        names.push(fields[i].name.clone());
        i = i + 1;
    }
    assert(views(names@) =~= field_names(fields@));
    let no_optional: Vec<String> = Vec::new();
    assert(views(no_optional@) =~= Seq::<Seq<char>>::empty());
    match v.strict_contents(&names, &no_optional, path) {
        Ok(_) => {},
        Err(e) => {
            proof {
                assert(views(names@) + views(no_optional@) =~= views(names@));
                lemma_reports_text(e, strict_problems(h@, field_names(fields@), Seq::empty()), path@);
            }
            return Err(e);
        },
    }
    proof {
        assert(views(names@) + views(no_optional@) =~= views(names@));
        lemma_missing_empty(h@, views(names@));
    }
    let ghost c = ctx_view(ctx);
    let mut errors: Vec<SchemaError> = Vec::new();
    let mut k: usize = 0;
    while k < fields.len()
        invariant
            k <= fields.len(),
            *v == Value::Hash(*h),
            c == ctx_view(ctx),
            views(names@) == field_names(fields@),
            names@.len() == fields@.len(),
            forall|j: int| 0 <= j < names@.len() ==> has_key(h@, #[trigger] views(names@)[j]),
            errors@.len() == 0 <==> forall|j: int|
                0 <= j < k ==> conforms(
                    (#[trigger] fields@[j]).data,
                    lookup_in(h@, fields@[j].name@)->0,
                    c,
                    depth as nat,
                ),
            errors@.len() == fields_lines(fields@, h@, k as int, c, depth as nat, path@).0,
            rendered_lines(errors@) == fields_lines(fields@, h@, k as int, c, depth as nat, path@).1,
        decreases fields.len() - k,
    {
        let name = &fields[k].name;
        assert(views(names@)[k as int] == fields@[k as int].name@);
        match find_key(h, name) {
            Some(idx) => {
                proof {
                    lemma_lookup_first(h@, name@, idx as int);
                }
                let p = push_field(path, name);
                match validate(&fields[k].data, &h[idx].1, ctx, &p, depth) {
                    Ok(()) => {},
                    Err(e) => {
                        proof {
                            lemma_lines_push(errors@, e);
                        }
                        errors.push(e);
                    },
                }
            },
            None => {
                proof {
                    assert(has_key(h@, views(names@)[k as int]));
                }
                errors.push(
                    SchemaError::new(SchemaErrorKind::FieldMissing { field: name.clone() }, path),
                );
            },
        }
        k = k + 1;
    }
    combine(errors, path)
}

impl YamlSchema {
    /// Validates a document against this schema, resolving references in `ctx`.
    pub fn validate(&self, ctx: Option<&YamlContext>, v: &Value) -> (r: Result<(), SchemaError>)
        ensures
            r is Ok <==> fields_conform(self.schema@, *v, ctx_view(ctx), MAX_REFERENCE_DEPTH as nat),
            r matches Err(e) ==> rendered(e) == fields_report(
                self.schema@,
                *v,
                ctx_view(ctx),
                MAX_REFERENCE_DEPTH as nat,
                "$"@,
            ),
    {
        validate_fields(&self.schema, v, ctx, &"$".to_owned(), MAX_REFERENCE_DEPTH)
    }

    /// Validates each of `docs`; every document that fails is reported, one
    /// failure as it is, more as an aggregate at `$`.
    pub fn validate_all(&self, docs: &Vec<Value>, ctx: Option<&YamlContext>) -> (r: Result<
        (),
        SchemaError,
    >)
        ensures
            r is Ok <==> forall|i: int|
                0 <= i < docs@.len() ==> fields_conform(
                    self.schema@,
                    #[trigger] docs@[i],
                    ctx_view(ctx),
                    MAX_REFERENCE_DEPTH as nat,
                ),
    {
        let mut errors: Vec<SchemaError> = Vec::new();
        let mut i: usize = 0;
        while i < docs.len()
            invariant
                i <= docs.len(),
                errors@.len() == 0 <==> forall|j: int|
                    0 <= j < i ==> fields_conform(
                        self.schema@,
                        #[trigger] docs@[j],
                        ctx_view(ctx),
                        MAX_REFERENCE_DEPTH as nat,
                    ),
            decreases docs.len() - i,
        {
            if let Err(e) = self.validate(ctx, &docs[i]) {
                errors.push(e);
            }
            i = i + 1;
        }
        combine(errors, &"$".to_owned())
    }

    /// Validates every document of `text`, reporting each that fails; text
    /// that does not parse is an error at `$`.
    pub fn validate_str(&self, text: &str, ctx: Option<&YamlContext>) -> (r: Result<(), SchemaError>)
        ensures
            r is Ok ==> crate::yaml::shallow(text.spec_bytes()) && crate::yaml::scans(text@),
            !crate::yaml::shallow(text.spec_bytes()) ==> (r matches Err(e) && e.path@ == "$"@
                && e.kind is DepthExceeded),
            crate::yaml::shallow(text.spec_bytes()) && !crate::yaml::scans(text@) ==> (r matches Err(
                e,
            ) && e.path@ == "$"@
                && e.kind is MalformedField),
    {
        let docs = crate::yaml::load_values(text)?;
        self.validate_all(&docs, ctx)
    }
}

} // verus!
