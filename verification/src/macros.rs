//! The checked-at-build constructor and the type it returns.
use vstd::prelude::*;

use crate::error::GStringError;
use crate::gstring::{check_constraints, GString};
use crate::validator::{validator_answer, Validator};

verus! {

/// A string whose length and ASCII checks are known to pass; the validator
/// has not run yet.
#[derive(Debug, Clone, Copy, PartialEq, Eq, PartialOrd, Ord)]
pub struct NotValidatedGString<V: Validator, const MIN: usize, const MAX: usize, const ASCII_ONLY: bool>(
    GString<V, MIN, MAX, ASCII_ONLY>,
);

impl<V: Validator, const MIN: usize, const MAX: usize, const ASCII_ONLY: bool> View for NotValidatedGString<
    V,
    MIN,
    MAX,
    ASCII_ONLY,
> {
    type V = Seq<char>;

    closed spec fn view(&self) -> Seq<char> {
        self.0@
    }
}

impl<V: Validator, const MIN: usize, const MAX: usize, const ASCII_ONLY: bool> NotValidatedGString<
    V,
    MIN,
    MAX,
    ASCII_ONLY,
> {
    /// Runs the validator, giving the `GString` when it accepts.
    pub fn validate(self) -> (r: Result<GString<V, MIN, MAX, ASCII_ONLY>, GStringError<V::Error>>)
        ensures
            match r {
                Ok(g) => g@ == self@ && validator_answer::<V>(self@, Ok(())),
                Err(GStringError::Validation(e)) => validator_answer::<V>(self@, Err(e)),
                Err(_) => false,
            },
    {
        self.0.validate()
    }
}

impl<V: Validator, const MIN: usize, const MAX: usize, const ASCII_ONLY: bool> GString<
    V,
    MIN,
    MAX,
    ASCII_ONLY,
> {
    /// Builds the string when it is known to pass the length and ASCII checks.
    pub fn __new(s: &str) -> (r: NotValidatedGString<V, MIN, MAX, ASCII_ONLY>)
        requires
            check_constraints(s@, MIN, MAX, ASCII_ONLY) is None,
        ensures
            r@ == s@,
    {
        match Self::unvalidated(s) {
            Some(g) => NotValidatedGString(g),
            None => {
                proof {
                    assert(false);
                }
                NotValidatedGString(Self::blank())
            },
        }
    }
}

} // verus!
