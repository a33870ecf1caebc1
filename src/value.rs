use vstd::prelude::*;

use crate::error::{combine, kind_message, rendered, rendered_lines, SchemaError, SchemaErrorKind};

verus! {

/// A parsed document node: a scalar, a sequence, or a map whose entries keep
/// the order in which they were written.
#[derive(Debug)]
pub enum Value {
    /// A floating-point scalar, kept as written.
    Real(String),
    Integer(i64),
    String(String),
    Boolean(bool),
    Array(Vec<Value>),
    Hash(Vec<(Value, Value)>),
    Alias(usize),
    Null,
    /// An absent node, distinct from an explicit null.
    BadValue,
}

/// The tag of a node as it appears in messages.
pub open spec fn type_tag(v: Value) -> Seq<char> {
    match v {
        Value::Real(_) => "real"@,
        Value::Integer(_) => "integer"@,
        Value::String(_) => "string"@,
        Value::Boolean(_) => "boolean"@,
        Value::Array(_) => "array"@,
        Value::Hash(_) => "hash"@,
        Value::Alias(_) => "alias"@,
        Value::Null => "null"@,
        Value::BadValue => "bad_value"@,
    }
}

/// The key `k` is the string `name`.
pub open spec fn key_is(k: Value, name: Seq<char>) -> bool {
    k matches Value::String(s) && s@ == name
}

/// Some entry of `h` has the key `name`.
pub open spec fn has_key(h: Seq<(Value, Value)>, name: Seq<char>) -> bool {
    exists|i: int| 0 <= i < h.len() && key_is(#[trigger] h[i].0, name)
}

/// `name` is one of `names`.
pub open spec fn names_contain(names: Seq<Seq<char>>, name: Seq<char>) -> bool {
    exists|i: int| 0 <= i < names.len() && #[trigger] names[i] == name
}

/// The character sequences of `names`.
pub open spec fn views(names: Seq<String>) -> Seq<Seq<char>> {
    names.map_values(|s: String| s@)
}

/// One discrepancy between a map and the keys it should have.
pub enum Problem {
    /// A required name that is not a key.
    Missing(Seq<char>),
    /// A string key that no list names.
    Extra(Seq<char>),
    /// A key that is not a string, by its tag.
    KeyType(Seq<char>),
}

/// The required names that are not keys of `h`, in the order given.
pub open spec fn missing_problems(h: Seq<(Value, Value)>, required: Seq<Seq<char>>) -> Seq<Problem>
    decreases required.len(),
{
    if required.len() == 0 {
        Seq::empty()
    } else {
        missing_problems(h, required.drop_last()) + if has_key(h, required.last()) {
            Seq::<Problem>::empty()
        } else {
            seq![Problem::Missing(required.last())]
        }
    }
}

/// The keys of `h` that `allowed` does not name, in the map's order.
pub open spec fn extra_problems(h: Seq<(Value, Value)>, allowed: Seq<Seq<char>>) -> Seq<Problem>
    decreases h.len(),
{
    if h.len() == 0 {
        Seq::empty()
    } else {
        extra_problems(h.drop_last(), allowed) + match h.last().0 {
            Value::String(s) => if names_contain(allowed, s@) {
                Seq::<Problem>::empty()
            } else {
                seq![Problem::Extra(s@)]
            },
            other => seq![Problem::KeyType(type_tag(other))],
        }
    }
}

/// Every discrepancy of `h`: missing required names first, then extra keys.
pub open spec fn strict_problems(
    h: Seq<(Value, Value)>,
    required: Seq<Seq<char>>,
    optional: Seq<Seq<char>>,
) -> Seq<Problem> {
    missing_problems(h, required) + extra_problems(h, required + optional)
}

/// `e` is the error that reports `p` at `path`.
pub open spec fn shows(e: SchemaError, p: Problem, path: Seq<char>) -> bool {
    e.path@ == path && match p {
        Problem::Missing(f) => e.kind matches SchemaErrorKind::FieldMissing { field } && field@
            == f,
        Problem::Extra(f) => e.kind matches SchemaErrorKind::ExtraField { field } && field@ == f,
        Problem::KeyType(t) => e.kind matches SchemaErrorKind::WrongType { expected, actual }
            && expected@ == "string"@ && actual@ == t,
    }
}

/// `e` reports all of `probs` at `path`: a single one as it is, more as an aggregate.
pub open spec fn reports_all(e: SchemaError, probs: Seq<Problem>, path: Seq<char>) -> bool {
    (probs.len() == 1 ==> shows(e, probs[0], path)) && (probs.len() > 1 ==> e.path@ == path && (
    e.kind matches SchemaErrorKind::Multiple { errors } && errors@.len() == probs.len() && forall|
        i: int,
    |
        0 <= i < probs.len() ==> shows(#[trigger] errors@[i], probs[i], path)))
}

/// `e` is the error for a node of another type than `expected`.
pub open spec fn is_wrong_type(e: SchemaError, expected: Seq<char>, v: Value, path: Seq<char>) -> bool {
    e.path@ == path && (e.kind matches SchemaErrorKind::WrongType { expected: x, actual: a } && x@
        == expected && a@ == type_tag(v))
}

/// The names of `keys` that are keys of `h`, in the order given.
pub open spec fn present_keys(h: Seq<(Value, Value)>, keys: Seq<Seq<char>>) -> Seq<Seq<char>>
    decreases keys.len(),
{
    if keys.len() == 0 {
        Seq::empty()
    } else {
        present_keys(h, keys.drop_last()) + if has_key(h, keys.last()) {
            seq![keys.last()]
        } else {
            Seq::<Seq<char>>::empty()
        }
    }
}

/// `names` joined by `, `.
pub open spec fn joined(names: Seq<Seq<char>>) -> Seq<char>
    decreases names.len(),
{
    if names.len() == 0 {
        Seq::empty()
    } else if names.len() == 1 {
        names[0]
    } else {
        joined(names.drop_last()) + ", "@ + names.last()
    }
}

impl Value {
    /// What `strict_contents` accepts.
    pub open spec fn strict_contents_ok(self, required: Seq<Seq<char>>, optional: Seq<Seq<char>>) -> bool {
        self matches Value::Hash(h) && strict_problems(h@, required, optional).len() == 0
    }

    pub fn type_to_str(&self) -> (r: &'static str)
        ensures
            r@ == type_tag(*self),
    {
        match self {
            Value::Real(_) => "real",
            Value::Integer(_) => "integer",
            Value::String(_) => "string",
            Value::Boolean(_) => "boolean",
            Value::Array(_) => "array",
            Value::Hash(_) => "hash",
            Value::Alias(_) => "alias",
            Value::Null => "null",
            Value::BadValue => "bad_value",
        }
    }

    /// The error for a node that is not of the `expected` type.
    pub fn wrong_type(&self, expected: &str, path: &String) -> (e: SchemaError)
        ensures
            e.path@ == path@,
            e.kind matches SchemaErrorKind::WrongType { expected: x, actual: a } && x@ == expected@
                && a@ == type_tag(*self),
    {
        SchemaError::new(
            SchemaErrorKind::WrongType {
                expected: expected.to_owned(),
                actual: self.type_to_str().to_owned(),
            },
            path,
        )
    }

    /// The entries of a map node.
    pub fn as_hash(&self, path: &String) -> (r: Result<&Vec<(Value, Value)>, SchemaError>)
        ensures
            self is Hash <==> r is Ok,
            r matches Ok(h) ==> *self == Value::Hash(*h),
            r matches Err(e) ==> e.path@ == path@ && (e.kind matches SchemaErrorKind::WrongType {
                expected: x,
                actual: a,
            } && x@ == "hash"@ && a@ == type_tag(*self)),
    {
        match self {
            Value::Hash(h) => Ok(h),
            _ => Err(self.wrong_type("hash", path)),
        }
    }

    /// Asserts that the node is a map whose keys are exactly the `required`
    /// names plus any of the `optional` ones. Each required name that is
    /// absent is reported, in the order given, then each key outside both
    /// lists, in the map's order; one problem comes back as it is, more as an
    /// aggregate.
    pub fn strict_contents(
        &self,
        required: &Vec<String>,
        optional: &Vec<String>,
        path: &String,
    ) -> (r: Result<&Vec<(Value, Value)>, SchemaError>)
        ensures
            r is Ok <==> self.strict_contents_ok(views(required@), views(optional@)),
            r matches Ok(h) ==> *self == Value::Hash(*h),
            r matches Err(e) ==> match *self {
                Value::Hash(h) => reports_all(e, strict_problems(h@, views(required@), views(optional@)), path@),
                _ => is_wrong_type(e, "hash"@, *self, path@),
            },
    {
        let h = self.as_hash(path)?;
        let mut errors: Vec<SchemaError> = Vec::new();
        let mut i: usize = 0;
        while i < required.len()
            invariant
                i <= required.len(),
                errors@.len() == missing_problems(h@, views(required@).subrange(0, i as int)).len(),
                forall|k: int|
                    0 <= k < errors@.len() ==> shows(
                        #[trigger] errors@[k],
                        missing_problems(h@, views(required@).subrange(0, i as int))[k],
                        path@,
                    ),
            decreases required.len() - i,
        {
            let ghost pre = missing_problems(h@, views(required@).subrange(0, i as int));
            let ghost before = errors@;
            proof {
                let sub = views(required@).subrange(0, i + 1);
                assert(sub.drop_last() =~= views(required@).subrange(0, i as int));
                assert(sub.last() == required@[i as int]@);
            }
            let found = find_key(h, &required[i]);
            if found.is_none() {
                errors.push(
                    SchemaError::new(
                        SchemaErrorKind::FieldMissing { field: required[i].clone() },
                        path,
                    ),
                );
            }
            proof {
                let post = missing_problems(h@, views(required@).subrange(0, i + 1));
                assert forall|k: int| 0 <= k < errors@.len() implies shows(
                    #[trigger] errors@[k],
                    post[k],
                    path@,
                ) by {
                    if k < before.len() {
                        assert(errors@[k] == before[k]);
                        assert(post[k] == pre[k]);
                    }
                }
            }
            i = i + 1;
        }
        assert(views(required@).subrange(0, required@.len() as int) =~= views(required@));
        let ghost missing = missing_problems(h@, views(required@));
        let ghost allowed = views(required@) + views(optional@);
        let mut j: usize = 0;
        while j < h.len()
            invariant
                j <= h.len(),
                missing == missing_problems(h@, views(required@)),
                allowed == views(required@) + views(optional@),
                errors@.len() == (missing + extra_problems(h@.subrange(0, j as int), allowed)).len(),
                forall|k: int|
                    0 <= k < errors@.len() ==> shows(
                        #[trigger] errors@[k],
                        (missing + extra_problems(h@.subrange(0, j as int), allowed))[k],
                        path@,
                    ),
            decreases h.len() - j,
        {
            let ghost pre = missing + extra_problems(h@.subrange(0, j as int), allowed);
            let ghost before = errors@;
            proof {
                let sub = h@.subrange(0, j + 1);
                assert(sub.drop_last() =~= h@.subrange(0, j as int));
                assert(sub.last() == h@[j as int]);
            }
            match &h[j].0 {
                Value::String(s) => {
                    let a = name_in(required, s);
                    let b = name_in(optional, s);
                    proof {
                        if a || b {
                            if a {
                                let k = choose|k: int|
                                    0 <= k < required@.len() && (#[trigger] required@[k])@ == s@;
                                assert(allowed[k] == required@[k]@);
                            } else {
                                let k = choose|k: int|
                                    0 <= k < optional@.len() && (#[trigger] optional@[k])@ == s@;
                                assert(allowed[required@.len() + k] == optional@[k]@);
                            }
                        } else {
                            assert forall|k: int| 0 <= k < allowed.len() implies #[trigger] allowed[k]
                                != s@ by {
                                if k < required@.len() {
                                    assert(allowed[k] == required@[k]@);
                                } else {
                                    assert(allowed[k] == optional@[k - required@.len()]@);
                                }
                            }
                        }
                    }
                    if !a && !b {
                        errors.push(
                            SchemaError::new(SchemaErrorKind::ExtraField { field: s.clone() }, path),
                        );
                    }
                },
                other => {
                    errors.push(other.wrong_type("string", path));
                },
            }
            proof {
                let post = missing + extra_problems(h@.subrange(0, j + 1), allowed);
                assert forall|k: int| 0 <= k < errors@.len() implies shows(
                    #[trigger] errors@[k],
                    post[k],
                    path@,
                ) by {
                    if k < before.len() {
                        assert(errors@[k] == before[k]);
                        assert(post[k] == pre[k]);
                    }
                }
            }
            j = j + 1;
        }
        assert(h@.subrange(0, h@.len() as int) =~= h@);
        let ghost probs = strict_problems(h@, views(required@), views(optional@));
        assert(errors@.len() == probs.len());
        let ghost errs = errors@;
        match combine(errors, path) {
            Ok(()) => Ok(h),
            Err(e) => {
                assert(forall|k: int| 0 <= k < errs.len() ==> shows(#[trigger] errs[k], probs[k], path@));
                Err(e)
            },
        }
    }

    /// Fails when two or more of `keys` are present at once, naming them all
    /// in the order given.
    pub fn check_exclusive_fields(&self, keys: &Vec<String>, path: &String) -> (r: Result<
        (),
        SchemaError,
    >)
        ensures
            r is Ok <==> (self matches Value::Hash(h) && present_keys(h@, views(keys@)).len() <= 1),
            r matches Err(e) ==> match *self {
                Value::Hash(h) => e.path@ == path@ && (e.kind matches SchemaErrorKind::MalformedField {
                    error,
                } && error@ == "conflicting constraints: "@ + joined(present_keys(h@, views(keys@)))
                    + " cannot be used at the same time"@),
                _ => is_wrong_type(e, "hash"@, *self, path@),
            },
    {
        let h = self.as_hash(path)?;
        let mut conflicts = String::new();
        let mut count: usize = 0;
        let mut i: usize = 0;
        while i < keys.len()
            invariant
                i <= keys.len(),
                count as nat == present_keys(h@, views(keys@).subrange(0, i as int)).len(),
                conflicts@ == joined(present_keys(h@, views(keys@).subrange(0, i as int))),
                count <= i,
            decreases keys.len() - i,
        {
            let ghost pre = present_keys(h@, views(keys@).subrange(0, i as int));
            proof {
                let sub = views(keys@).subrange(0, i + 1);
                assert(sub.drop_last() =~= views(keys@).subrange(0, i as int));
                assert(sub.last() == keys@[i as int]@);
            }
            if find_key(h, &keys[i]).is_some() {
                if count > 0 {
                    conflicts.append(", ");
                }
                conflicts.append(keys[i].as_str());
                count = count + 1;
                proof {
                    let post = present_keys(h@, views(keys@).subrange(0, i + 1));
                    assert(post =~= pre.push(keys@[i as int]@));
                    assert(post.drop_last() =~= pre);
                    assert(conflicts@ =~= joined(post));
                }
            } else {
                proof {
                    let post = present_keys(h@, views(keys@).subrange(0, i + 1));
                    assert(post =~= pre);
                }
            }
            i = i + 1;
        }
        assert(views(keys@).subrange(0, keys@.len() as int) =~= views(keys@));
        if count > 1 {
            let mut error = "conflicting constraints: ".to_owned();
            error.append(conflicts.as_str());
            error.append(" cannot be used at the same time");
            return Err(SchemaError::new(SchemaErrorKind::MalformedField { error }, path));
        }
        Ok(())
    }
}

proof fn lemma_shows_same_text(e1: SchemaError, e2: SchemaError, p: Problem, path: Seq<char>)
    requires
        shows(e1, p, path),
        shows(e2, p, path),
    ensures
        rendered(e1) == rendered(e2),
{
    assert(kind_message(e1.kind) == kind_message(e2.kind));
}

proof fn lemma_lines_same_text(
    a: Seq<SchemaError>,
    b: Seq<SchemaError>,
    probs: Seq<Problem>,
    path: Seq<char>,
)
    requires
        a.len() == probs.len(),
        b.len() == probs.len(),
        forall|i: int| 0 <= i < probs.len() ==> shows(#[trigger] a[i], probs[i], path),
        forall|i: int| 0 <= i < probs.len() ==> shows(#[trigger] b[i], probs[i], path),
    ensures
        rendered_lines(a) == rendered_lines(b),
    decreases probs.len(),
{
    if probs.len() > 0 {
        let n = probs.len() - 1;
        lemma_shows_same_text(a[n], b[n], probs[n], path);
        if probs.len() > 1 {
            let (a0, b0, p0) = (a.drop_last(), b.drop_last(), probs.drop_last());
            assert forall|i: int| 0 <= i < p0.len() implies shows(#[trigger] a0[i], p0[i], path) by {
                assert(a0[i] == a[i]);
            }
            assert forall|i: int| 0 <= i < p0.len() implies shows(#[trigger] b0[i], p0[i], path) by {
                assert(b0[i] == b[i]);
            }
            lemma_lines_same_text(a0, b0, p0, path);
        }
    }
}

/// The report of a map's discrepancies is fixed by the discrepancies: two
/// errors that both report the same problems at the same path render to the
/// same text, so checking the same map twice reports the same thing.
pub proof fn lemma_report_repeatable(
    e1: SchemaError,
    e2: SchemaError,
    probs: Seq<Problem>,
    path: Seq<char>,
)
    requires
        probs.len() > 0,
        reports_all(e1, probs, path),
        reports_all(e2, probs, path),
    ensures
        rendered(e1) == rendered(e2),
{
    if probs.len() == 1 {
        lemma_shows_same_text(e1, e2, probs[0], path);
    } else {
        let a = e1.kind->Multiple_errors@;
        let b = e2.kind->Multiple_errors@;
        lemma_lines_same_text(a, b, probs, path);
    }
}

/// The first entry of `h` whose key is the string `name`.
pub fn find_key(h: &Vec<(Value, Value)>, name: &String) -> (r: Option<usize>)
    ensures
        r is None <==> !has_key(h@, name@),
        r matches Some(i) ==> i < h@.len() && key_is(h@[i as int].0, name@) && forall|j: int|
            0 <= j < i ==> !key_is(#[trigger] h@[j].0, name@),
{
    let mut i: usize = 0;
    while i < h.len()
        invariant
            i <= h.len(),
            forall|j: int| 0 <= j < i ==> !key_is(#[trigger] h@[j].0, name@),
        decreases h.len() - i,
    {
        match &h[i].0 {
            Value::String(s) => {
                if *s == *name {
                    return Some(i);
                }
            },
            _ => {},
        }
        i = i + 1;
    }
    None
}

/// `name` is one of `names`.
pub fn name_in(names: &Vec<String>, name: &String) -> (r: bool)
    ensures
        r == names_contain(views(names@), name@),
{
    let mut i: usize = 0;
    while i < names.len()
        invariant
            i <= names.len(),
            forall|j: int| 0 <= j < i ==> (#[trigger] names@[j])@ != name@,
        decreases names.len() - i,
    {
        if names[i] == *name {
            assert(views(names@)[i as int] == names@[i as int]@);
            return true;
        }
        i = i + 1;
    }
    false
}

} // verus!
