use vstd::prelude::*;
use vstd::string::StringSliceAdditionalSpecFns;

use crate::error::{push_field, push_index, SchemaError, SchemaErrorKind};
use crate::limit::{try_into_usize, Limit};
use crate::validate::{lemma_lookup_first, lookup_in};
use crate::value::{
    find_key, has_key, is_wrong_type, key_is, present_keys, strict_problems, views, Value,
};

verus! {

/// One node of a schema's constraint tree.
#[derive(Debug)]
pub enum DataType {
    String { min_length: Option<Limit>, max_length: Option<Limit> },
    Number { min: Option<Limit>, max: Option<Limit>, integral: bool },
    Boolean,
    List { inner: Box<DataType> },
    /// A map with string keys; `value`, when given, constrains every value.
    Dictionary { value: Option<Box<DataType>> },
    Object { fields: Vec<Property> },
    /// A link to the schema registered under `uri`, followed while validating.
    Reference { uri: String },
}

/// A named field of an object.
#[derive(Debug)]
pub struct Property {
    pub name: String,
    pub data: DataType,
}

/// A top-level schema: its fields, and the uri it may be registered under.
#[derive(Debug)]
pub struct YamlSchema {
    pub uri: Option<String>,
    pub schema: Vec<Property>,
}

/// The word that selects a variant in a schema's `type` entry.
pub open spec fn variant_word(t: DataType) -> Seq<char> {
    match t {
        DataType::String { .. } => "string"@,
        DataType::Number { .. } => "number"@,
        DataType::Boolean => "boolean"@,
        DataType::List { .. } => "list"@,
        DataType::Dictionary { .. } => "dictionary"@,
        DataType::Object { .. } => "object"@,
        DataType::Reference { .. } => "reference"@,
    }
}

/// The entry `key` of the map `h` is the string `s`.
pub open spec fn entry_is_str(h: Seq<(Value, Value)>, key: Seq<char>, s: Seq<char>) -> bool {
    lookup_in(h, key) matches Some(Value::String(x)) && x@ == s
}

/// The entry `key`, when it is an integer.
pub open spec fn int_entry(h: Seq<(Value, Value)>, key: Seq<char>) -> Option<i64> {
    match lookup_in(h, key) {
        Some(Value::Integer(n)) => Some(n),
        _ => None,
    }
}

/// An inclusive bound read from the integer entry `key`.
pub open spec fn inclusive_entry(h: Seq<(Value, Value)>, key: Seq<char>) -> Option<Limit> {
    match int_entry(h, key) {
        Some(n) => Some(Limit::Inclusive(n)),
        None => None,
    }
}

/// A bound read from `inclusive` when it is given, else from `exclusive`.
pub open spec fn bound_entry(h: Seq<(Value, Value)>, inclusive: Seq<char>, exclusive: Seq<char>) -> Option<Limit> {
    match int_entry(h, inclusive) {
        Some(n) => Some(Limit::Inclusive(n)),
        None => match int_entry(h, exclusive) {
            Some(n) => Some(Limit::Exclusive(n)),
            None => None,
        },
    }
}

/// What a parsed node holds, beyond its children, as read from its entries `h`.
pub open spec fn node_reads(t: DataType, h: Seq<(Value, Value)>) -> bool {
    match t {
        DataType::String { min_length, max_length } => min_length == inclusive_entry(
            h,
            "min_length"@,
        ) && max_length == inclusive_entry(h, "max_length"@),
        DataType::Number { min, max, integral } => min == bound_entry(h, "min"@, "exclusive_min"@)
            && max == bound_entry(h, "max"@, "exclusive_max"@) && integral == (lookup_in(
            h,
            "integral"@,
        ) == Some(Value::Boolean(true))),
        DataType::Dictionary { value } => value is None <==> lookup_in(h, "value"@) is None,
        DataType::Reference { uri } => entry_is_str(h, "uri"@, uri@),
        _ => true,
    }
}

/// The entry at `i` is the first keyed `key`.
pub open spec fn first_at(h: Seq<(Value, Value)>, key: Seq<char>, i: int) -> bool {
    0 <= i < h.len() && key_is(h[i].0, key) && forall|j: int|
        0 <= j < i ==> !key_is(#[trigger] h[j].0, key)
}

/// The entry `key` is absent, null or an integer.
pub open spec fn int_ok(h: Seq<(Value, Value)>, key: Seq<char>) -> bool {
    match lookup_in(h, key) {
        None | Some(Value::Null) | Some(Value::Integer(_)) => true,
        _ => false,
    }
}

/// The entry `key` is absent, null, or an integer that fits a length.
pub open spec fn len_ok(h: Seq<(Value, Value)>, key: Seq<char>) -> bool {
    int_ok(h, key) && match int_entry(h, key) {
        Some(n) => 0 <= n <= usize::MAX,
        None => true,
    }
}

/// The entry `key` is absent, null or a boolean.
pub open spec fn bool_ok(h: Seq<(Value, Value)>, key: Seq<char>) -> bool {
    match lookup_in(h, key) {
        None | Some(Value::Null) | Some(Value::Boolean(_)) => true,
        _ => false,
    }
}

/// The keys every node has: its type, and its name when it is a field.
pub open spec fn base_keys(named: bool) -> Seq<Seq<char>> {
    if named {
        seq!["type"@, "name"@]
    } else {
        seq!["type"@]
    }
}

/// The keys of `h` are exactly `required` plus some of `optional`.
pub open spec fn keys_ok(h: Seq<(Value, Value)>, required: Seq<Seq<char>>, optional: Seq<Seq<char>>) -> bool {
    strict_problems(h, required, optional).len() == 0
}

/// `v` is a schema node that parses: a map with a known `type`, only the keys
/// that type allows, integer bounds (non-negative for lengths) that leave
/// room for a value, and children that parse.
pub open spec fn node_ok(v: Value, named: bool) -> bool
    decreases v,
    via node_ok_decreases
{
    match v {
        Value::Hash(h) => match lookup_in(h@, "type"@) {
            Some(Value::String(k)) => {
                let base = base_keys(named);
                if k@ == "string"@ {
                    keys_ok(h@, base, seq!["min_length"@, "max_length"@]) && len_ok(h@, "min_length"@)
                        && len_ok(h@, "max_length"@) && span_ok(
                        inclusive_entry(h@, "min_length"@),
                        inclusive_entry(h@, "max_length"@),
                    )
                } else if k@ == "number"@ {
                    keys_ok(
                        h@,
                        base,
                        seq!["min"@, "max"@, "exclusive_min"@, "exclusive_max"@, "integral"@],
                    ) && present_keys(h@, seq!["min"@, "exclusive_min"@]).len() <= 1 && present_keys(
                        h@,
                        seq!["max"@, "exclusive_max"@],
                    ).len() <= 1 && int_ok(h@, "min"@) && int_ok(h@, "exclusive_min"@) && int_ok(
                        h@,
                        "max"@,
                    ) && int_ok(h@, "exclusive_max"@) && span_ok(
                        bound_entry(h@, "min"@, "exclusive_min"@),
                        bound_entry(h@, "max"@, "exclusive_max"@),
                    ) && bool_ok(h@, "integral"@)
                } else if k@ == "boolean"@ {
                    keys_ok(h@, base, Seq::empty())
                } else if k@ == "list"@ {
                    keys_ok(h@, base + seq!["inner"@], Seq::empty()) && exists|i: int|
                        first_at(h@, "inner"@, i) && node_ok(#[trigger] h@[i].1, false)
                } else if k@ == "dictionary"@ {
                    keys_ok(h@, base, seq!["value"@]) && forall|i: int|
                        first_at(h@, "value"@, i) ==> node_ok(#[trigger] h@[i].1, false)
                } else if k@ == "object"@ {
                    keys_ok(h@, base + seq!["fields"@], Seq::empty()) && exists|i: int|
                        first_at(h@, "fields"@, i) && props_ok(#[trigger] h@[i].1)
                } else if k@ == "reference"@ {
                    keys_ok(h@, base + seq!["uri"@], Seq::empty()) && present_str(
                        lookup_in(h@, "uri"@),
                    )
                } else {
                    false
                }
            },
            _ => false,
        },
        _ => false,
    }
}

/// `t` is what parsing the node `v` gives: its variant is the `type` word,
/// its bounds, flag and uri are read from its entries, and its children are
/// what parsing their entries gives.
pub open spec fn parsed_as(v: Value, t: DataType) -> bool
    decreases v,
    via parsed_as_decreases
{
    match v {
        Value::Hash(h) => entry_is_str(h@, "type"@, variant_word(t)) && node_reads(t, h@) && match t {
            DataType::List { inner } => exists|i: int|
                first_at(h@, "inner"@, i) && parsed_as(#[trigger] h@[i].1, *inner),
            DataType::Dictionary { value } => match value {
                Some(b) => exists|i: int|
                    first_at(h@, "value"@, i) && parsed_as(#[trigger] h@[i].1, *b),
                None => lookup_in(h@, "value"@) is None,
            },
            DataType::Object { fields } => exists|i: int|
                first_at(h@, "fields"@, i) && props_parsed(#[trigger] h@[i].1, fields@),
            _ => true,
        },
        _ => false,
    }
}

/// `fields` is what parsing the list `v` gives: one field per item, named by
/// the item's `name` and parsed from the item.
pub open spec fn props_parsed(v: Value, fields: Seq<Property>) -> bool
    decreases v,
    via props_parsed_decreases
{
    match v {
        Value::Array(a) => a@.len() == fields.len() && forall|k: int|
            0 <= k < a@.len() ==> (#[trigger] a@[k] matches Value::Hash(h) && entry_is_str(
                h@,
                "name"@,
                fields[k].name@,
            )) && parsed_as(a@[k], fields[k].data),
        _ => false,
    }
}

#[via_fn]
proof fn parsed_as_decreases(v: Value, t: DataType) {
    if v is Hash {
        assert forall|i: int| 0 <= i < v->Hash_0@.len() implies decreases_to!(v => v->Hash_0@[i].1) by {
            lemma_entry_smaller(v, i);
        }
    }
}

#[via_fn]
proof fn props_parsed_decreases(v: Value, fields: Seq<Property>) {
    if v is Array {
        assert forall|k: int| 0 <= k < v->Array_0@.len() implies decreases_to!(v => v->Array_0@[k]) by {
            lemma_item_smaller(v, k);
        }
    }
}

/// `v` is a list of maps, each with a string `name`, each a node that parses.
pub open spec fn props_ok(v: Value) -> bool
    decreases v,
    via props_ok_decreases
{
    match v {
        Value::Array(a) => forall|k: int|
            0 <= k < a@.len() ==> (#[trigger] a@[k] matches Value::Hash(h) && present_str(
                lookup_in(h@, "name"@),
            )) && node_ok(a@[k], true),
        _ => false,
    }
}

#[via_fn]
proof fn node_ok_decreases(v: Value, named: bool) {
    if v is Hash {
        assert forall|i: int| 0 <= i < v->Hash_0@.len() implies decreases_to!(v => v->Hash_0@[i].1) by {
            lemma_entry_smaller(v, i);
        }
    }
}

#[via_fn]
proof fn props_ok_decreases(v: Value) {
    if v is Array {
        assert forall|k: int| 0 <= k < v->Array_0@.len() implies decreases_to!(v => v->Array_0@[k]) by {
            lemma_item_smaller(v, k);
        }
    }
}

/// `v` is a schema document that parses: a map with a `schema` list of
/// fields that parse, an optional `uri` that is a string or null, and no
/// other key.
pub open spec fn schema_doc_ok(v: Value) -> bool {
    match v {
        Value::Hash(h) => keys_ok(h@, seq!["schema"@], seq!["uri"@]) && match lookup_in(h@, "uri"@) {
            None | Some(Value::Null) | Some(Value::String(_)) => true,
            _ => false,
        } && exists|i: int| first_at(h@, "schema"@, i) && props_ok(#[trigger] h@[i].1),
        _ => false,
    }
}

/// The entry holds a string.
pub open spec fn present_str(x: Option<Value>) -> bool {
    x matches Some(Value::String(_))
}

/// When both endpoints are given, some value lies between them.
pub open spec fn span_ok(lower: Option<Limit>, upper: Option<Limit>) -> bool {
    match (lower, upper) {
        (Some(l), Some(u)) => l.spec_has_span(u),
        _ => true,
    }
}

/// A length bound is not negative.
pub open spec fn length_ok(l: Option<Limit>) -> bool {
    l matches Some(x) ==> x.threshold() >= 0
}

/// The invariant that parsing establishes: feasible bounds at every node.
pub open spec fn wf_type(t: DataType) -> bool
    decreases t,
{
    match t {
        DataType::String { min_length, max_length } => length_ok(min_length) && length_ok(
            max_length,
        ) && span_ok(min_length, max_length),
        DataType::Number { min, max, .. } => span_ok(min, max),
        DataType::List { inner } => wf_type(*inner),
        DataType::Dictionary { value } => match value {
            Some(b) => wf_type(*b),
            None => true,
        },
        DataType::Object { fields } => wf_fields(fields@),
        _ => true,
    }
}

pub open spec fn wf_fields(fields: Seq<Property>) -> bool
    decreases fields,
{
    forall|k: int| 0 <= k < fields.len() ==> wf_type(#[trigger] fields[k].data)
}

proof fn lemma_entry_smaller(v: Value, i: int)
    requires
        v is Hash,
        0 <= i < v->Hash_0@.len(),
    ensures
        decreases_to!(v => v->Hash_0@[i].1),
{
    let h = v->Hash_0;
    assert(decreases_to!(v => h));
    assert(decreases_to!(h => h@));
    assert(decreases_to!(h@ => h@[i]));
    assert(decreases_to!(h@[i] => h@[i].1));
    assert(decreases_to!(v => h@[i].1));
}

proof fn lemma_item_smaller(v: Value, k: int)
    requires
        v is Array,
        0 <= k < v->Array_0@.len(),
    ensures
        decreases_to!(v => v->Array_0@[k]),
{
    let a = v->Array_0;
    assert(decreases_to!(v => a));
    assert(decreases_to!(a => a@));
    assert(decreases_to!(a@ => a@[k]));
    assert(decreases_to!(v => a@[k]));
}

fn malformed(error: &str, path: &String) -> (e: SchemaError)
    ensures
        e.path@ == path@,
        e.kind is MalformedField,
{
    SchemaError::new(SchemaErrorKind::MalformedField { error: error.to_owned() }, path)
}

fn same(s: &String, lit: &str) -> (r: bool)
    ensures
        r == (s@ == lit@),
{
    let t = lit.to_owned();
    *s == t
}

/// A required string entry: absent or null is a missing field.
pub fn required_str(h: &Vec<(Value, Value)>, key: &str, path: &String) -> (r: Result<String, SchemaError>)
    ensures
        r is Ok <==> present_str(lookup_in(h@, key@)),
        r matches Ok(s) ==> entry_is_str(h@, key@, s@),
        r matches Err(e) ==> match lookup_in(h@, key@) {
            Some(Value::String(_)) => false,
            Some(Value::Null) | Some(Value::BadValue) | None => e.path@ == path@ && (
            e.kind matches SchemaErrorKind::FieldMissing { field } && field@ == key@),
            Some(x) => is_wrong_type(e, "string"@, x, path@ + "."@ + key@),
        },
{
    let k = key.to_owned();
    match find_key(h, &k) {
        Some(i) => {
            proof {
                lemma_lookup_first(h@, k@, i as int);
            }
            match &h[i].1 {
                Value::String(s) => Ok(s.clone()),
                Value::Null | Value::BadValue => Err(
                    SchemaError::new(SchemaErrorKind::FieldMissing { field: k }, path),
                ),
                other => {
                    let p = push_field(path, &k);
                    Err(other.wrong_type("string", &p))
                },
            }
        },
        None => {
            proof {
                crate::validate::lemma_lookup_none(h@, k@);
            }
            Err(SchemaError::new(SchemaErrorKind::FieldMissing { field: k }, path))
        },
    }
}

/// The value of the first entry keyed `key`.
fn entry<'a>(h: &'a Vec<(Value, Value)>, key: &String) -> (r: Option<&'a Value>)
    ensures
        match r {
            Some(x) => lookup_in(h@, key@) == Some(*x),
            None => lookup_in(h@, key@) is None,
        },
{
    match find_key(h, key) {
        Some(i) => {
            proof {
                lemma_lookup_first(h@, key@, i as int);
            }
            Some(&h[i].1)
        },
        None => {
            proof {
                crate::validate::lemma_lookup_none(h@, key@);
            }
            None
        },
    }
}

/// An optional integer entry.
fn optional_i64(h: &Vec<(Value, Value)>, key: &str, path: &String) -> (r: Result<
    Option<i64>,
    SchemaError,
>)
    ensures
        r is Ok <==> int_ok(h@, key@),
        r matches Ok(x) ==> x == int_entry(h@, key@),
        r matches Err(e) ==> (lookup_in(h@, key@) matches Some(x) && is_wrong_type(
            e,
            "i64"@,
            x,
            path@ + "."@ + key@,
        )),
{
    let k = key.to_owned();
    match entry(h, &k) {
        Some(Value::Integer(n)) => Ok(Some(*n)),
        Some(Value::Null) | None => Ok(None),
        Some(other) => {
            let p = push_field(path, &k);
            Err(other.wrong_type("i64", &p))
        },
    }
}

/// An optional boolean entry, false when absent.
fn optional_bool(h: &Vec<(Value, Value)>, key: &str, path: &String) -> (r: Result<bool, SchemaError>)
    ensures
        r is Ok <==> bool_ok(h@, key@),
        r matches Ok(b) ==> b == (lookup_in(h@, key@) == Some(Value::Boolean(true))),
{
    let k = key.to_owned();
    match entry(h, &k) {
        Some(Value::Boolean(b)) => Ok(*b),
        Some(Value::Null) | None => Ok(false),
        Some(other) => {
            let p = push_field(path, &k);
            Err(other.wrong_type("boolean", &p))
        },
    }
}

proof fn lemma_absent_lookup(h: Seq<(Value, Value)>, key: Seq<char>)
    requires
        !has_key(h, key),
    ensures
        lookup_in(h, key) is None,
{
    crate::validate::lemma_lookup_none(h, key);
}

/// An optional length bound: a non-negative integer, inclusive.
fn length_limit(h: &Vec<(Value, Value)>, key: &str, path: &String) -> (r: Result<
    Option<Limit>,
    SchemaError,
>)
    ensures
        r is Ok <==> len_ok(h@, key@),
        r matches Ok(l) ==> length_ok(l) && l == inclusive_entry(h@, key@),
        !int_ok(h@, key@) ==> (r matches Err(e) && is_wrong_type(
            e,
            "i64"@,
            lookup_in(h@, key@)->0,
            path@ + "."@ + key@,
        )),
{
    match optional_i64(h, key, path)? {
        Some(n) => {
            let p = push_field(path, &key.to_owned());
            try_into_usize(n, &p)?;
            Ok(Some(Limit::Inclusive(n)))
        },
        None => Ok(None),
    }
}

/// An optional numeric bound, given either inclusively or exclusively.
fn value_limit(h: &Vec<(Value, Value)>, inclusive: &str, exclusive: &str, path: &String) -> (r:
    Result<Option<Limit>, SchemaError>)
    requires
        present_keys(h@, seq![inclusive@, exclusive@]).len() <= 1,
    ensures
        r is Ok <==> int_ok(h@, inclusive@) && int_ok(h@, exclusive@),
        r matches Ok(l) ==> l == bound_entry(h@, inclusive@, exclusive@),
{
    proof {
        reveal_with_fuel(present_keys, 3);
        let ks = seq![inclusive@, exclusive@];
        assert(ks.drop_last() =~= seq![inclusive@]);
        assert(ks.drop_last().drop_last() =~= Seq::<Seq<char>>::empty());
        if has_key(h@, inclusive@) {
            assert(!has_key(h@, exclusive@));
            lemma_absent_lookup(h@, exclusive@);
        }
        if !has_key(h@, inclusive@) {
            lemma_absent_lookup(h@, inclusive@);
        }
    }
    match optional_i64(h, inclusive, path)? {
        Some(n) => Ok(Some(Limit::Inclusive(n))),
        None => match optional_i64(h, exclusive, path)? {
            Some(n) => Ok(Some(Limit::Exclusive(n))),
            None => Ok(None),
        },
    }
}

fn check_span(lower: &Option<Limit>, upper: &Option<Limit>, path: &String) -> (r: Result<
    (),
    SchemaError,
>)
    ensures
        r is Ok <==> span_ok(*lower, *upper),
{
    match (lower, upper) {
        (Some(l), Some(u)) => {
            if l.has_span(u) {
                Ok(())
            } else {
                Err(malformed("the lower and upper bounds leave no value between them", path))
            }
        },
        _ => Ok(()),
    }
}

/// The entries of a node of type `kind`, checked as `strict_contents` does;
/// a missing entry is reported as it is, anything else as superfluous content.
fn node_contents(
    v: &Value,
    kind: &String,
    required: &Vec<String>,
    optional: &Vec<String>,
    path: &String,
) -> (r: Result<(), SchemaError>)
    ensures
        r is Ok <==> v.strict_contents_ok(views(required@), views(optional@)),
        r matches Err(e) ==> e.kind is FieldMissing || (e.path@ == path@ && (
        e.kind matches SchemaErrorKind::MalformedField { error } && error@ == kind@
            + " element contains superfluous elements"@)),
{
    match v.strict_contents(required, optional, path) {
        Ok(_) => Ok(()),
        Err(e) => {
            match e.kind {
                SchemaErrorKind::FieldMissing { .. } => Err(e),
                _ => {
                    let mut error = kind.clone();
                    error.append(" element contains superfluous elements");
                    Err(SchemaError::new(SchemaErrorKind::MalformedField { error }, path))
                },
            }
        },
    }
}

/// Parses one node of a schema; `named` is set for the fields of an object,
/// whose nodes also carry a `name` entry.
#[verifier::rlimit(60)]
pub fn parse_type(v: &Value, named: bool, path: &String) -> (r: Result<DataType, SchemaError>)
    ensures
        r is Ok <==> node_ok(*v, named),
        r matches Ok(t) ==> wf_type(t) && parsed_as(*v, t),
        !(v is Hash) ==> (r matches Err(e) && e.path@ == path@ && e.kind is MalformedField),
        (v matches Value::Hash(h) && entry_is_str(h@, "type"@, "string"@) && keys_ok(
            h@,
            base_keys(named),
            seq!["min_length"@, "max_length"@],
        ) && len_ok(h@, "min_length"@) && !int_ok(h@, "max_length"@)) ==> (r matches Err(e)
            && is_wrong_type(
            e,
            "i64"@,
            lookup_in(v->Hash_0@, "max_length"@)->0,
            path@ + "."@ + "max_length"@,
        )),
    decreases v,
{
    let h = match v {
        Value::Hash(h) => h,
        _ => {
            return Err(malformed("schema element is not an object", path));
        },
    };
    let kind = required_str(h, "type", path)?;
    let mut required: Vec<String> = vec!["type".to_owned()];
    if named {
        required.push("name".to_owned());
    }
    assert(views(required@) =~= base_keys(named));
    let ghost base = base_keys(named);
    if same(&kind, "string") {
        let optional = vec!["min_length".to_owned(), "max_length".to_owned()];
        assert(views(optional@) =~= seq!["min_length"@, "max_length"@]);
        node_contents(v, &kind, &required, &optional, path)?;
        let min_length = length_limit(h, "min_length", path)?;
        let max_length = length_limit(h, "max_length", path)?;
        check_span(&min_length, &max_length, path)?;
        Ok(DataType::String { min_length, max_length })
    } else if same(&kind, "number") {
        let optional = vec![
            "min".to_owned(),
            "max".to_owned(),
            "exclusive_min".to_owned(),
            "exclusive_max".to_owned(),
            "integral".to_owned(),
        ];
        assert(views(optional@) =~= seq!["min"@, "max"@, "exclusive_min"@, "exclusive_max"@, "integral"@]);
        node_contents(v, &kind, &required, &optional, path)?;
        let lower_keys = vec!["min".to_owned(), "exclusive_min".to_owned()];
        assert(views(lower_keys@) =~= seq!["min"@, "exclusive_min"@]);
        let upper_keys = vec!["max".to_owned(), "exclusive_max".to_owned()];
        assert(views(upper_keys@) =~= seq!["max"@, "exclusive_max"@]);
        v.check_exclusive_fields(&lower_keys, path)?;
        v.check_exclusive_fields(&upper_keys, path)?;
        let min = value_limit(h, "min", "exclusive_min", path)?;
        let max = value_limit(h, "max", "exclusive_max", path)?;
        check_span(&min, &max, path)?;
        let integral = optional_bool(h, "integral", path)?;
        Ok(DataType::Number { min, max, integral })
    } else if same(&kind, "boolean") {
        let none: Vec<String> = Vec::new();
        assert(views(none@) =~= Seq::<Seq<char>>::empty());
        node_contents(v, &kind, &required, &none, path)?;
        Ok(DataType::Boolean)
    } else if same(&kind, "list") {
        let key = "inner".to_owned();
        required.push(key.clone());
        assert(views(required@) =~= base + seq!["inner"@]);
        let none: Vec<String> = Vec::new();
        assert(views(none@) =~= Seq::<Seq<char>>::empty());
        node_contents(v, &kind, &required, &none, path)?;
        let idx = match find_key(h, &key) {
            Some(i) => i,
            None => {
                proof {
                    crate::validate::lemma_missing_empty(h@, views(required@));
                    assert(views(required@)[views(required@).len() - 1] == key@);
                }
                return Err(
                    SchemaError::new(SchemaErrorKind::FieldMissing { field: key }, path),
                );
            },
        };
        let p = push_field(path, &key);
        proof {
            lemma_entry_smaller(*v, idx as int);
        }
        let node = parse_type(&h[idx].1, false, &p);
        proof {
            assert(first_at(h@, "inner"@, idx as int));
            assert forall|i: int| first_at(h@, "inner"@, i) implies i == idx by {
                if i < idx {
                    assert(!key_is(h@[i].0, "inner"@));
                } else if i > idx {
                    assert(!key_is(h@[idx as int].0, "inner"@));
                }
            }
        }
        let node = node?;
        Ok(DataType::List { inner: Box::new(node) })
    } else if same(&kind, "dictionary") {
        let key = "value".to_owned();
        let optional = vec![key.clone()];
        assert(views(optional@) =~= seq!["value"@]);
        node_contents(v, &kind, &required, &optional, path)?;
        match find_key(h, &key) {
            Some(idx) => {
                let p = push_field(path, &key);
                proof {
                    lemma_entry_smaller(*v, idx as int);
                    lemma_lookup_first(h@, key@, idx as int);
                }
                let node = parse_type(&h[idx].1, false, &p);
                proof {
                    assert(first_at(h@, "value"@, idx as int));
                    assert forall|i: int| first_at(h@, "value"@, i) implies i == idx by {
                        if i < idx {
                            assert(!key_is(h@[i].0, "value"@));
                        } else if i > idx {
                            assert(!key_is(h@[idx as int].0, "value"@));
                        }
                    }
                }
                let node = node?;
                Ok(DataType::Dictionary { value: Some(Box::new(node)) })
            },
            None => {
                proof {
                    crate::validate::lemma_lookup_none(h@, key@);
                }
                Ok(DataType::Dictionary { value: None })
            },
        }
    } else if same(&kind, "object") {
        let key = "fields".to_owned();
        required.push(key.clone());
        assert(views(required@) =~= base + seq!["fields"@]);
        let none: Vec<String> = Vec::new();
        assert(views(none@) =~= Seq::<Seq<char>>::empty());
        node_contents(v, &kind, &required, &none, path)?;
        let idx = match find_key(h, &key) {
            Some(i) => i,
            None => {
                proof {
                    crate::validate::lemma_missing_empty(h@, views(required@));
                    assert(views(required@)[views(required@).len() - 1] == key@);
                }
                return Err(
                    SchemaError::new(SchemaErrorKind::FieldMissing { field: key }, path),
                );
            },
        };
        let p = push_field(path, &key);
        proof {
            lemma_entry_smaller(*v, idx as int);
        }
        let fields = parse_properties(&h[idx].1, &p);
        proof {
            assert(first_at(h@, "fields"@, idx as int));
            assert forall|i: int| first_at(h@, "fields"@, i) implies i == idx by {
                if i < idx {
                    assert(!key_is(h@[i].0, "fields"@));
                } else if i > idx {
                    assert(!key_is(h@[idx as int].0, "fields"@));
                }
            }
        }
        let fields = fields?;
        Ok(DataType::Object { fields })
    } else if same(&kind, "reference") {
        required.push("uri".to_owned());
        assert(views(required@) =~= base + seq!["uri"@]);
        let none: Vec<String> = Vec::new();
        assert(views(none@) =~= Seq::<Seq<char>>::empty());
        node_contents(v, &kind, &required, &none, path)?;
        let uri = required_str(h, "uri", path)?;
        Ok(DataType::Reference { uri })
    } else {
        let p = push_field(path, &"type".to_owned());
        Err(malformed("unknown type", &p))
    }
}

/// Parses a sequence of named nodes, each `{name, type, ...}`.
pub fn parse_properties(v: &Value, path: &String) -> (r: Result<Vec<Property>, SchemaError>)
    ensures
        r matches Ok(fields) ==> wf_fields(fields@) && props_parsed(*v, fields@),
        r is Ok <==> props_ok(*v),
        !(v is Array) ==> r is Err,
    decreases v,
{
    let items = match v {
        Value::Array(a) => a,
        other => {
            return Err(other.wrong_type("array", path));
        },
    };
    let mut fields: Vec<Property> = Vec::new();
    let mut k: usize = 0;
    while k < items.len()
        invariant
            k <= items.len(),
            *v == Value::Array(*items),
            wf_fields(fields@),
            fields@.len() == k,
            forall|j: int|
                0 <= j < k ==> (#[trigger] items@[j] matches Value::Hash(h) && entry_is_str(
                    h@,
                    "name"@,
                    fields@[j].name@,
                )),
            forall|j: int| 0 <= j < k ==> node_ok(#[trigger] items@[j], true),
            forall|j: int| 0 <= j < k ==> parsed_as(#[trigger] items@[j], fields@[j].data),
        decreases items.len() - k,
    {
        let p = push_index(path, k);
        let ghost item = items@[k as int];
        let name = match &items[k] {
            Value::Hash(h) => {
                let n = required_str(h, "name", &p);
                if n.is_err() {
                    assert(!props_ok(*v)) by {
                        assert(!(item matches Value::Hash(hh) && present_str(lookup_in(hh@, "name"@))));
                    }
                }
                n?
            },
            _ => {
                assert(!props_ok(*v)) by {
                    assert(!(item is Hash));
                }
                return Err(malformed("schema element is not an object", &p));
            },
        };
        proof {
            lemma_item_smaller(*v, k as int);
        }
        let data = parse_type(&items[k], true, &p);
        if data.is_err() {
            assert(!props_ok(*v)) by {
                assert(!node_ok(item, true));
            }
        }
        let data = data?;
        let ghost before = fields@;
        fields.push(Property { name, data });
        proof {
            assert forall|j: int| 0 <= j < fields@.len() implies wf_type(
                #[trigger] fields@[j].data,
            ) by {
                if j < before.len() {
                    assert(fields@[j] == before[j]);
                }
            }
            assert forall|j: int| 0 <= j < k + 1 implies (#[trigger] items@[j] matches Value::Hash(h)
                && entry_is_str(h@, "name"@, fields@[j].name@)) by {
                if j < k {
                    assert(fields@[j] == before[j]);
                }
            }
            assert forall|j: int| 0 <= j < k + 1 implies parsed_as(
                #[trigger] items@[j],
                fields@[j].data,
            ) by {
                if j < k {
                    assert(fields@[j] == before[j]);
                }
            }
        }
        k = k + 1;
    }
    proof {
        assert forall|j: int| 0 <= j < items@.len() implies (#[trigger] items@[j] matches Value::Hash(
            h,
        ) && present_str(lookup_in(h@, "name"@))) && node_ok(items@[j], true) by {
            assert(items@[j] matches Value::Hash(h) && entry_is_str(h@, "name"@, fields@[j].name@));
        }
    }
    Ok(fields)
}

impl YamlSchema {
    /// A schema from a parsed document: its `schema` list and optional `uri`.
    pub fn from_value(v: &Value) -> (r: Result<YamlSchema, SchemaError>)
        ensures
            r is Ok <==> schema_doc_ok(*v),
            r matches Ok(s) ==> wf_fields(s.schema@) && (v matches Value::Hash(h) && (match s.uri {
                Some(u) => entry_is_str(h@, "uri"@, u@),
                None => !present_str(lookup_in(h@, "uri"@)),
            }) && exists|i: int|
                first_at(h@, "schema"@, i) && props_parsed(#[trigger] h@[i].1, s.schema@)),
            !(v is Hash) ==> r is Err,
    {
        let root = "$".to_owned();
        let key = "uri".to_owned();
        let required = vec!["schema".to_owned()];
        let optional = vec![key.clone()];
        assert(views(required@) =~= seq!["schema"@]);
        assert(views(optional@) =~= seq!["uri"@]);
        let h = v.strict_contents(&required, &optional, &root)?;
        let uri = match find_key(h, &key) {
            Some(i) => {
                proof {
                    lemma_lookup_first(h@, key@, i as int);
                }
                match &h[i].1 {
                    Value::String(s) => Some(s.clone()),
                    Value::Null => None,
                    other => {
                        let p = push_field(&root, &key);
                        return Err(other.wrong_type("string", &p));
                    },
                }
            },
            None => {
                proof {
                    crate::validate::lemma_lookup_none(h@, key@);
                }
                None
            },
        };
        let key = "schema".to_owned();
        let p = push_field(&root, &key);
        let idx = match find_key(h, &key) {
            Some(i) => i,
            None => {
                proof {
                    crate::validate::lemma_missing_empty(h@, views(required@));
                    assert(views(required@)[0] == key@);
                }
                return Err(SchemaError::new(SchemaErrorKind::FieldMissing { field: key }, &root));
            },
        };
        let schema = parse_properties(&h[idx].1, &p);
        proof {
            assert(first_at(h@, "schema"@, idx as int));
            assert forall|i: int| first_at(h@, "schema"@, i) implies i == idx by {
                if i < idx {
                    assert(!key_is(h@[i].0, "schema"@));
                } else if i > idx {
                    assert(!key_is(h@[idx as int].0, "schema"@));
                }
            }
        }
        let schema = schema?;
        Ok(YamlSchema { uri, schema })
    }

    /// A schema from text: the first document in it.
    pub fn from_str(text: &str) -> (r: Result<YamlSchema, SchemaError>)
        ensures
            r matches Ok(s) ==> wf_fields(s.schema@),
            !(crate::yaml::shallow(text.spec_bytes()) && crate::yaml::scans(text@)) ==> r is Err,
    {
        let docs = crate::yaml::load_values(text)?;
        if docs.len() == 0 {
            return Err(malformed("no document to read a schema from", &"$".to_owned()));
        }
        YamlSchema::from_value(&docs[0])
    }
}

} // verus!
