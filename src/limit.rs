use vstd::prelude::*;

use crate::error::{SchemaError, SchemaErrorKind};

verus! {

/// One endpoint of a range of integers.
#[derive(Clone, Copy, Debug, PartialEq, Eq, Structural)]
pub enum Limit {
    Inclusive(i64),
    Exclusive(i64),
}

impl Limit {
    pub open spec fn threshold(self) -> int {
        match self {
            Limit::Inclusive(t) => t as int,
            Limit::Exclusive(t) => t as int,
        }
    }

    /// `value` lies below the endpoint: at or under it when inclusive, strictly under when exclusive.
    pub open spec fn spec_is_lesser(self, value: int) -> bool {
        match self {
            Limit::Inclusive(t) => value <= t,
            Limit::Exclusive(t) => value < t,
        }
    }

    /// `value` lies above the endpoint: at or over it when inclusive, strictly over when exclusive.
    pub open spec fn spec_is_greater(self, value: int) -> bool {
        match self {
            Limit::Inclusive(t) => value >= t,
            Limit::Exclusive(t) => value > t,
        }
    }

    /// Some integer lies between `self` as lower and `upper` as upper endpoint:
    /// two exclusive endpoints must be more than one apart, any other pair
    /// must not be reversed.
    pub open spec fn spec_has_span(self, upper: Limit) -> bool {
        match (self, upper) {
            (Limit::Exclusive(l), Limit::Exclusive(u)) => u - l > 1,
            _ => upper.threshold() - self.threshold() >= 0,
        }
    }

    pub fn is_lesser(&self, value: &i64) -> (r: bool)
        ensures
            r == self.spec_is_lesser(*value as int),
    {
        match self {
            Limit::Inclusive(threshold) => *value <= *threshold,
            Limit::Exclusive(threshold) => *value < *threshold,
        }
    }

    pub fn is_greater(&self, value: &i64) -> (r: bool)
        ensures
            r == self.spec_is_greater(*value as int),
    {
        match self {
            Limit::Inclusive(threshold) => *value >= *threshold,
            Limit::Exclusive(threshold) => *value > *threshold,
        }
    }

    pub fn has_span(&self, upper: &Self) -> (r: bool)
        ensures
            r == self.spec_has_span(*upper),
    {
        match (self, upper) {
            (Limit::Exclusive(lower), Limit::Exclusive(upper)) => {
                (*upper as i128) - (*lower as i128) > 1
            },
            (Limit::Inclusive(lower), Limit::Inclusive(upper)) => {
                (*upper as i128) - (*lower as i128) >= 0
            },
            (Limit::Exclusive(lower), Limit::Inclusive(upper)) => {
                (*upper as i128) - (*lower as i128) >= 0
            },
            (Limit::Inclusive(lower), Limit::Exclusive(upper)) => {
                (*upper as i128) - (*lower as i128) >= 0
            },
        }
    }

    pub fn threshold_value(&self) -> (r: i64)
        ensures
            r as int == self.threshold(),
    {
        match self {
            Limit::Inclusive(t) => *t,
            Limit::Exclusive(t) => *t,
        }
    }
}

/// A length or count read from the schema: it must not be negative and must fit in a `usize`.
pub fn try_into_usize(number: i64, path: &String) -> (r: Result<usize, SchemaError>)
    ensures
        number >= 0 && number <= usize::MAX ==> r == Ok::<usize, SchemaError>(number as usize),
        number < 0 ==> (r matches Err(e) && e.path@ == path@ && (
        e.kind matches SchemaErrorKind::MalformedField { error } && error@
            == "must be a non-negative integer value"@)),
        number > usize::MAX ==> (r matches Err(e) && e.path@ == path@ && (
        e.kind matches SchemaErrorKind::MalformedField { error } && error@
            == "value does not fit in a usize on this system"@)),
{
    if number < 0 {
        return Err(
            SchemaError::new(
                SchemaErrorKind::MalformedField {
                    error: "must be a non-negative integer value".to_owned(),
                },
                path,
            ),
        );
    }
    if number as u64 > usize::MAX as u64 {
        return Err(
            SchemaError::new(
                SchemaErrorKind::MalformedField {
                    error: "value does not fit in a usize on this system".to_owned(),
                },
                path,
            ),
        );
    }
    Ok(number as usize)
}

} // verus!
