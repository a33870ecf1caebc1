use vstd::prelude::*;
use vstd::string::StringSliceAdditionalSpecFns;

use crate::error::{SchemaError, SchemaErrorKind};
use crate::value::Value;
use yaml_rust::{ScanError, Yaml, YamlLoader};

verus! {

#[verifier::external_type_specification]
#[verifier::external_body]
pub struct ExYaml(Yaml);

#[verifier::external_type_specification]
#[verifier::external_body]
pub struct ExScanError(ScanError);

/// The payload of one parsed node, with its children still in parsed form.
enum Shape {
    Real(String),
    Integer(i64),
    Str(String),
    Boolean(bool),
    Array(Vec<Yaml>),
    Hash(Vec<(Yaml, Yaml)>),
    Alias(usize),
    Null,
    BadValue,
}

/// How deep the parsed documents may nest.
pub const MAX_NESTING: usize = 512;

/// The most indentation and indicator characters one line may hold.
pub const MAX_LINE_WEIGHT: usize = 256;

/// A byte that can open a nested node on its line: `-`, `?`, `:`, `[`, `{`.
pub open spec fn is_indicator(b: u8) -> bool {
    b == 45 || b == 63 || b == 58 || b == 91 || b == 123
}

/// Only spaces stand between the start of its line and byte `i`.
pub open spec fn leading(s: Seq<u8>, i: int) -> bool
    decreases i,
{
    if i <= 0 {
        true
    } else if s[i - 1] == 10 {
        true
    } else {
        s[i - 1] == 32 && leading(s, i - 1)
    }
}

/// The leading spaces and indicator bytes of the line that byte `i` ends,
/// counted up to `i`.
pub open spec fn line_weight(s: Seq<u8>, i: int) -> nat
    decreases i,
{
    if i <= 0 {
        0
    } else if s[i - 1] == 10 {
        0
    } else {
        line_weight(s, i - 1) + if is_indicator(s[i - 1]) || (s[i - 1] == 32 && leading(s, i - 1)) {
            1nat
        } else {
            0nat
        }
    }
}

/// No line of `s` is more than `MAX_LINE_WEIGHT` deep. A block node nested in
/// another starts either further right on a new line, or after an indicator
/// on the same line, so block nesting is bounded by this weight; flow nesting
/// is bounded by the scanner itself.
pub open spec fn shallow(s: Seq<u8>) -> bool {
    forall|i: int| 0 <= i <= s.len() ==> line_weight(s, i) <= MAX_LINE_WEIGHT
}

/// Whether no line of `text` is too deep to parse.
pub fn is_shallow(text: &str) -> (r: bool)
    ensures
        r == shallow(text.spec_bytes()),
{
    let bytes = text.as_bytes();
    let ghost s = bytes@;
    let mut weight: usize = 0;
    let mut lead = true;
    let mut i: usize = 0;
    while i < bytes.len()
        invariant
            s == bytes@,
            s == text.spec_bytes(),
            i <= s.len(),
            weight as nat == line_weight(s, i as int),
            lead == leading(s, i as int),
            forall|j: int| 0 <= j <= i ==> line_weight(s, j) <= MAX_LINE_WEIGHT,
        decreases bytes.len() - i,
    {
        let b = bytes[i];
        if b == 10 {
            weight = 0;
            lead = true;
        } else {
            if b == 45 || b == 63 || b == 58 || b == 91 || b == 123 || (b == 32 && lead) {
                weight = weight + 1;
            }
            lead = b == 32 && lead;
        }
        if weight > MAX_LINE_WEIGHT {
            assert(line_weight(s, i + 1) > MAX_LINE_WEIGHT);
            assert(!shallow(s));
            return false;
        }
        i = i + 1;
    }
    true
}

/// Whether the text scans and parses as a stream of documents.
pub uninterp spec fn scans(text: Seq<char>) -> bool;

/// Relies on `YamlLoader::load_from_str`: turns text into its documents, or
/// fails with the scanner's error; which of the two depends on the text alone.
/// The loader recurses once per level of nesting, with no bound of its own for
/// block nesting, so the text must be shallow.
#[verifier::external_body]
fn load_from_str(text: &str) -> (r: Result<Vec<Yaml>, ScanError>)
    requires
        shallow(text.spec_bytes()),
    ensures
        r is Ok <==> scans(text@),
{
    YamlLoader::load_from_str(text)
}

/// Relies on `ScanError`'s `Display`: the scanner's message with its position.
#[verifier::external_body]
fn scan_error_text(e: &ScanError) -> String {
    e.to_string()
}

/// Relies on the variants of `yaml_rust::Yaml`: moves out the payload of a node
/// and the entries of a map in their order.
#[verifier::external_body]
fn into_shape(y: Yaml) -> Shape {
    match y {
        Yaml::Real(s) => Shape::Real(s),
        Yaml::Integer(i) => Shape::Integer(i),
        Yaml::String(s) => Shape::Str(s),
        Yaml::Boolean(b) => Shape::Boolean(b),
        Yaml::Array(a) => Shape::Array(a),
        Yaml::Hash(h) => Shape::Hash(h.into_iter().collect()),
        Yaml::Alias(n) => Shape::Alias(n),
        Yaml::Null => Shape::Null,
        Yaml::BadValue => Shape::BadValue,
    }
}

/// Converts a parsed node, following at most `fuel` levels of nesting.
fn convert(y: Yaml, fuel: usize) -> (r: Option<Value>)
    decreases fuel,
{
    match into_shape(y) {
        Shape::Real(s) => Some(Value::Real(s)),
        Shape::Integer(i) => Some(Value::Integer(i)),
        Shape::Str(s) => Some(Value::String(s)),
        Shape::Boolean(b) => Some(Value::Boolean(b)),
        Shape::Alias(n) => Some(Value::Alias(n)),
        Shape::Null => Some(Value::Null),
        Shape::BadValue => Some(Value::BadValue),
        Shape::Array(items) => {
            if fuel == 0 {
                return None;
            }
            let mut rest = items;
            let mut out: Vec<Value> = Vec::new();
            while rest.len() > 0
                invariant
                    fuel > 0,
                decreases rest.len(),
            {
                let item = rest.pop().unwrap();
                out.push(convert(item, fuel - 1)?);
            }
            Some(Value::Array(reverse(out)))
        },
        Shape::Hash(entries) => {
            if fuel == 0 {
                return None;
            }
            let mut rest = entries;
            let mut out: Vec<(Value, Value)> = Vec::new();
            while rest.len() > 0
                invariant
                    fuel > 0,
                decreases rest.len(),
            {
                let (k, v) = rest.pop().unwrap();
                let k = convert(k, fuel - 1)?;
                let v = convert(v, fuel - 1)?;
                out.push((k, v));
            }
            Some(Value::Hash(reverse(out)))
        },
    }
}

/// The items of `v` in the opposite order.
fn reverse<T>(v: Vec<T>) -> (r: Vec<T>)
    ensures
        r@ == v@.reverse(),
{
    let mut v = v;
    let mut out: Vec<T> = Vec::new();
    let ghost orig = v@;
    while v.len() > 0
        invariant
            v@ + out@.reverse() == orig,
        decreases v.len(),
    {
        let x = v.pop().unwrap();
        proof {
            assert(out@.push(x).reverse() =~= seq![x] + out@.reverse());
        }
        out.push(x);
        assert(v@ + out@.reverse() =~= orig);
    }
    assert(out@.reverse().reverse() =~= out@);
    assert(v@ =~= Seq::<T>::empty());
    assert(out@.reverse() =~= orig);
    out
}

/// Parses text into its documents. Text with a line deeper than
/// `MAX_LINE_WEIGHT`, text that does not scan, and documents that nest deeper
/// than `MAX_NESTING` are errors at `$`; the depth is checked before parsing.
pub fn load_values(text: &str) -> (r: Result<Vec<Value>, SchemaError>)
    ensures
        r matches Err(e) ==> e.path@ == "$"@,
        r is Ok ==> shallow(text.spec_bytes()) && scans(text@),
        !shallow(text.spec_bytes()) ==> (r matches Err(e) && e.kind is DepthExceeded),
        shallow(text.spec_bytes()) && !scans(text@) ==> (r matches Err(e)
            && e.kind is MalformedField),
{
    let root = "$".to_owned();
    if !is_shallow(text) {
        return Err(SchemaError::new(SchemaErrorKind::DepthExceeded, &root));
    }
    let docs = match load_from_str(text) {
        Ok(docs) => docs,
        Err(e) => {
            let error = scan_error_text(&e);
            return Err(SchemaError::new(SchemaErrorKind::MalformedField { error }, &root));
        },
    };
    let mut rest = reverse(docs);
    let mut out: Vec<Value> = Vec::new();
    while rest.len() > 0
        invariant
            root@ == "$"@,
            shallow(text.spec_bytes()),
            scans(text@),
        decreases rest.len(),
    {
        let doc = rest.pop().unwrap();
        match convert(doc, MAX_NESTING) {
            Some(v) => out.push(v),
            None => {
                return Err(SchemaError::new(SchemaErrorKind::DepthExceeded, &root));
            },
        }
    }
    Ok(out)
}

} // verus!
