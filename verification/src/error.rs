//! Errors reported by the constructors and mutations, and their messages.
use vstd::prelude::*;
use crate::text::{decimal, join, usize_to_string};

verus! {

/// Failure of the length or ASCII checks that every `GString` constructor runs.
#[non_exhaustive]
#[derive(Debug, Clone, Copy, PartialEq, Eq)]
pub enum ConstraintError {
    /// Shorter than `MIN` bytes (the bound is carried).
    TooShort(usize),
    /// Longer than `MAX` bytes (the bound is carried).
    TooLong(usize),
    /// `ASCII_ONLY` is set but the string holds a non-ASCII character.
    NotAscii,
}

/// GString error type.
#[non_exhaustive]
#[derive(Debug, Clone, Copy, PartialEq, Eq)]
pub enum GStringError<VE> {
    /// When string is shorter than MIN=usize.
    TooShort(usize),
    /// When string is longer than MAX=usize.
    TooLong(usize),
    /// When ASCII_ONLY is true but string is not all ASCII.
    NotAscii,
    /// When validation failed with VE = Validator associated error type.
    Validation(VE),
    /// When mutation failed with error message.
    Mutation(&'static str),
}

/// The `GStringError` that a failed constraint check is reported as.
pub open spec fn lift_error<VE>(e: ConstraintError) -> GStringError<VE> {
    match e {
        ConstraintError::TooShort(min) => GStringError::TooShort(min),
        ConstraintError::TooLong(max) => GStringError::TooLong(max),
        ConstraintError::NotAscii => GStringError::NotAscii,
    }
}

impl<VE> From<ConstraintError> for GStringError<VE> {
    fn from(value: ConstraintError) -> (r: Self) {
        match value {
            ConstraintError::TooShort(min) => GStringError::TooShort(min),
            ConstraintError::TooLong(max) => GStringError::TooLong(max),
            ConstraintError::NotAscii => GStringError::NotAscii,
        }
    }
}

impl<VE> vstd::std_specs::convert::FromSpecImpl<ConstraintError> for GStringError<VE> {
    open spec fn obeys_from_spec() -> bool {
        true
    }

    open spec fn from_spec(v: ConstraintError) -> Self {
        lift_error(v)
    }
}

/// The message that describes a failed constraint check.
pub open spec fn constraint_message(e: ConstraintError) -> Seq<char> {
    match e {
        ConstraintError::TooShort(min) => "minimum length allowed is "@ + decimal(min as nat),
        ConstraintError::TooLong(max) => "maximum length allowed is "@ + decimal(max as nat),
        ConstraintError::NotAscii => "only ASCII characters are allowed"@,
    }
}

impl ConstraintError {
    /// Human-readable description of the failure.
    pub fn to_string(&self) -> (r: String)
        ensures
            r@ == constraint_message(*self),
    {
        match self {
            ConstraintError::TooShort(min) => join("minimum length allowed is ", usize_to_string(*min).as_str()),
            ConstraintError::TooLong(max) => join("maximum length allowed is ", usize_to_string(*max).as_str()),
            ConstraintError::NotAscii => String::from_str("only ASCII characters are allowed"),
        }
    }
}

/// The message that describes an error whose validation payload is text.
pub open spec fn error_message(e: GStringError<&str>) -> Seq<char> {
    match e {
        GStringError::TooShort(min) => "minimum length allowed is "@ + decimal(min as nat),
        GStringError::TooLong(max) => "maximum length allowed is "@ + decimal(max as nat),
        GStringError::NotAscii => "only ASCII characters are allowed"@,
        GStringError::Validation(m) => "validation error: "@ + m@,
        GStringError::Mutation(m) => "mutation error: "@ + m@,
    }
}

impl<'a> GStringError<&'a str> {
    /// Human-readable description of the error.
    pub fn to_string(&self) -> (r: String)
        ensures
            r@ == error_message(*self),
    {
        match self {
            GStringError::TooShort(min) => join("minimum length allowed is ", usize_to_string(*min).as_str()),
            GStringError::TooLong(max) => join("maximum length allowed is ", usize_to_string(*max).as_str()),
            GStringError::NotAscii => String::from_str("only ASCII characters are allowed"),
            GStringError::Validation(m) => join("validation error: ", m),
            GStringError::Mutation(m) => join("mutation error: ", m),
        }
    }
}

} // verus!
