use vstd::prelude::*;

verus! {

/// What went wrong, independent of where it happened.
#[derive(Debug)]
pub enum SchemaErrorKind {
    WrongType { expected: String, actual: String },
    FieldMissing { field: String },
    ExtraField { field: String },
    MalformedField { error: String },
    StringValidationError { error: String },
    ReferenceNotFound { uri: String },
    /// A reference was met while validating without a context to resolve it in.
    ContextMissing { uri: String },
    /// The schema or the document nests deeper than the engine follows.
    DepthExceeded,
    Multiple { errors: Vec<SchemaError> },
}

/// An error together with the path of the node it is about (`$.a.b[2]`).
#[derive(Debug)]
pub struct SchemaError {
    pub kind: SchemaErrorKind,
    pub path: String,
}

/// The message of an error that is not an aggregate.
pub open spec fn kind_message(k: SchemaErrorKind) -> Seq<char> {
    match k {
        SchemaErrorKind::WrongType { expected, actual } =>
            "wrong type, expected '"@ + expected@ + "' got '"@ + actual@ + "'"@,
        SchemaErrorKind::FieldMissing { field } => "missing field, '"@ + field@ + "' not found"@,
        SchemaErrorKind::ExtraField { field } => "extra field, '"@ + field@ + "' is not allowed"@,
        SchemaErrorKind::MalformedField { error } => "malformed field: "@ + error@,
        SchemaErrorKind::StringValidationError { error } => "string validation error: "@ + error@,
        SchemaErrorKind::ReferenceNotFound { uri } => "reference not found: '"@ + uri@ + "'"@,
        SchemaErrorKind::ContextMissing { uri } =>
            "no context supplied to resolve reference '"@ + uri@ + "'"@,
        SchemaErrorKind::DepthExceeded => "maximum nesting depth exceeded"@,
        SchemaErrorKind::Multiple { .. } => Seq::empty(),
    }
}

/// The text of an error: `<path>: <message>`, or for an aggregate the texts
/// of its children joined by newlines.
pub open spec fn rendered(e: SchemaError) -> Seq<char>
    decreases e,
{
    match e.kind {
        SchemaErrorKind::Multiple { errors } => rendered_lines(errors@),
        _ => e.path@ + ": "@ + kind_message(e.kind),
    }
}

pub open spec fn rendered_lines(errors: Seq<SchemaError>) -> Seq<char>
    decreases errors,
{
    if errors.len() == 0 {
        Seq::empty()
    } else if errors.len() == 1 {
        rendered(errors[0])
    } else {
        rendered_lines(errors.drop_last()) + "\n"@ + rendered(errors.last())
    }
}

impl SchemaError {
    pub fn new(kind: SchemaErrorKind, path: &String) -> (r: SchemaError)
        ensures
            r.kind == kind,
            r.path@ == path@,
    {
        SchemaError { kind, path: path.clone() }
    }

    /// One line `<path>: <message>` for a single error; the lines of the
    /// children, joined by newlines, for an aggregate.
    pub fn render(&self) -> (r: String)
        ensures
            r@ == rendered(*self),
        decreases self,
    {
        match &self.kind {
            SchemaErrorKind::Multiple { errors } => {
                let mut out = String::new();
                let mut i: usize = 0;
                while i < errors.len()
                    invariant
                        i <= errors.len(),
                        self.kind is Multiple,
                        *errors == self.kind->Multiple_errors,
                        out@ == rendered_lines(errors@.subrange(0, i as int)),
                    decreases errors.len() - i,
                {
                    let ghost pre = errors@.subrange(0, i as int);
                    let ghost post = errors@.subrange(0, i + 1);
                    proof {
                        assert(post.drop_last() =~= pre);
                        assert(post.last() == errors@[i as int]);
                    }
                    if i > 0 {
                        out.append("\n");
                    }
                    proof {
                        let es = self.kind->Multiple_errors;
                        assert(decreases_to!(*self => self.kind));
                        assert(decreases_to!(self.kind => es));
                        assert(decreases_to!(es => es@));
                        assert(decreases_to!(es@ => es@[i as int]));
                        assert(decreases_to!(*self => es@[i as int]));
                    }
                    let line = errors[i].render();
                    out.append(line.as_str());
                    assert(out@ =~= rendered_lines(post));
                    i = i + 1;
                }
                assert(errors@.subrange(0, errors@.len() as int) =~= errors@);
                out
            },
            _ => {
                let mut out = self.path.clone();
                out.append(": ");
                let msg = self.message();
                out.append(msg.as_str());
                out
            },
        }
    }

    fn message(&self) -> (r: String)
        ensures
            r@ == kind_message(self.kind),
    {
        let mut out = String::new();
        match &self.kind {
            SchemaErrorKind::WrongType { expected, actual } => {
                out.append("wrong type, expected '");
                out.append(expected.as_str());
                out.append("' got '");
                out.append(actual.as_str());
                out.append("'");
            },
            SchemaErrorKind::FieldMissing { field } => {
                out.append("missing field, '");
                out.append(field.as_str());
                out.append("' not found");
            },
            SchemaErrorKind::ExtraField { field } => {
                out.append("extra field, '");
                out.append(field.as_str());
                out.append("' is not allowed");
            },
            SchemaErrorKind::MalformedField { error } => {
                out.append("malformed field: ");
                out.append(error.as_str());
            },
            SchemaErrorKind::StringValidationError { error } => {
                out.append("string validation error: ");
                out.append(error.as_str());
            },
            SchemaErrorKind::ReferenceNotFound { uri } => {
                out.append("reference not found: '");
                out.append(uri.as_str());
                out.append("'");
            },
            SchemaErrorKind::ContextMissing { uri } => {
                out.append("no context supplied to resolve reference '");
                out.append(uri.as_str());
                out.append("'");
            },
            SchemaErrorKind::DepthExceeded => {
                out.append("maximum nesting depth exceeded");
            },
            SchemaErrorKind::Multiple { .. } => {},
        }
        assert(out@ =~= kind_message(self.kind));
        out
    }
}

/// The decimal digits of `n`.
pub open spec fn digits(n: nat) -> Seq<char>
    decreases n,
{
    if n < 10 {
        seq!["0123456789"@[n as int]]
    } else {
        digits(n / 10) + seq!["0123456789"@[(n % 10) as int]]
    }
}

/// `n` written in decimal, with a leading minus when negative.
pub open spec fn decimal(n: int) -> Seq<char> {
    if n < 0 {
        seq!['-'] + digits((-n) as nat)
    } else {
        digits(n as nat)
    }
}

/// Relies on std's `Display` for integers: plain decimal, `-` before a negative value.
#[verifier::external_body]
pub(crate) fn int_text(n: i128) -> (r: String)
    ensures
        r@ == decimal(n as int),
{
    n.to_string()
}

/// The path of the entry `name` under `path`.
pub fn push_field(path: &String, name: &String) -> (r: String)
    ensures
        r@ == path@ + "."@ + name@,
{
    let mut out = path.clone();
    out.append(".");
    out.append(name.as_str());
    out
}

/// The path of the element at `index` under `path`.
pub fn push_index(path: &String, index: usize) -> (r: String)
    ensures
        r@ == path@ + "["@ + decimal(index as int) + "]"@,
{
    let mut out = path.clone();
    out.append("[");
    let digits = int_text(index as i128);
    out.append(digits.as_str());
    out.append("]");
    out
}

/// Adding an error to a list adds its text as a new line.
pub proof fn lemma_lines_push(errors: Seq<SchemaError>, e: SchemaError)
    ensures
        rendered_lines(errors.push(e)) == if errors.len() == 0 {
            rendered(e)
        } else {
            rendered_lines(errors) + "\n"@ + rendered(e)
        },
{
    assert(errors.push(e).drop_last() =~= errors);
    assert(errors.push(e).last() == e);
    if errors.len() == 0 {
        assert(errors.push(e)[0] == e);
    }
}

/// Folds collected errors: none is success, one is returned as it is, more
/// are wrapped in an aggregate at `path`.
pub fn combine(errors: Vec<SchemaError>, path: &String) -> (r: Result<(), SchemaError>)
    ensures
        errors@.len() == 0 <==> r is Ok,
        errors@.len() == 1 ==> r == Err::<(), SchemaError>(errors@[0]),
        errors@.len() > 1 ==> (r matches Err(e) && e.path@ == path@ && e.kind == (
        SchemaErrorKind::Multiple { errors })),
        r matches Err(e) ==> rendered(e) == rendered_lines(errors@),
{
    let mut errors = errors;
    if errors.len() == 0 {
        Ok(())
    } else if errors.len() == 1 {
        let e = errors.pop().unwrap();
        Err(e)
    } else {
        Err(SchemaError::new(SchemaErrorKind::Multiple { errors }, path))
    }
}

} // verus!
