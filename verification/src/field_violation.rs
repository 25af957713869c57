//! Messages with fields that are missing or do not hold what they should.

use vstd::prelude::*;

verus! {

/// What is wrong with a field of a message.
#[derive(Debug, PartialEq, Eq)]
pub enum FieldViolation {
    /// The field has to be there and is not.
    Required { field: String },
    /// The field does not hold what it should.
    Invalid { field: String, description: String },
}

impl FieldViolation {
    /// The violation of a field that has to be there and is not.
    pub fn required(field: &str) -> (violation: Self)
        ensures
            violation matches FieldViolation::Required { field: f } && f@ == field@,
    {
        FieldViolation::Required { field: field.to_owned() }
    }
}

} // verus!
