//! Custom validation that a `GString` type runs on every string it holds.
use vstd::prelude::*;

verus! {

/// Custom validation run on every string a `GString` is built from.
///
/// An implementation verified with Verus says which strings it accepts with
/// `valid` and sets `obeys_valid`; `validate` must then answer accordingly.
/// Of any implementation, the contracts of the library state that its
/// verdict and its error are passed on as `validate` gave them
/// (`validator_answer`).
pub trait Validator {
    /// Error reported when a string is rejected.
    type Error;

    /// Whether `validate` answers as `valid` says.
    open spec fn obeys_valid() -> bool {
        false
    }

    /// The strings (as sequences of characters) this validator accepts;
    /// meaningful only where `obeys_valid` holds.
    open spec fn valid(s: Seq<char>) -> bool {
        true
    }

    /// Validate the string.
    fn validate(s: &str) -> (r: Result<(), Self::Error>)
        ensures
            Self::obeys_valid() ==> (r is Ok <==> Self::valid(s@)),
    ;
}

/// `v` is an answer that `V::validate` gives for a string whose characters
/// are `s`; it agrees with `valid` where the validator states its verdict.
pub open spec fn validator_answer<V: Validator>(s: Seq<char>, v: Result<(), V::Error>) -> bool {
    &&& exists|x: &str| x@ == s && #[trigger] call_ensures(V::validate, (x,), v)
    &&& V::obeys_valid() ==> (v is Ok <==> V::valid(s))
}

/// Marks validators that accept the empty string.
///
/// Enables `Default` for `GString` with `MIN == 0`.
pub trait AllowEmpty {}

/// Validator that accepts every string.
#[derive(Debug, Clone, Copy, PartialEq, Eq, PartialOrd, Ord, Hash)]
pub struct NoValidation;

impl Validator for NoValidation {
    type Error = core::convert::Infallible;

    open spec fn obeys_valid() -> bool {
        true
    }

    open spec fn valid(s: Seq<char>) -> bool {
        true
    }

    fn validate(_s: &str) -> (r: Result<(), Self::Error>) {
        Ok(())
    }
}

impl Validator for () {
    type Error = core::convert::Infallible;

    open spec fn obeys_valid() -> bool {
        true
    }

    open spec fn valid(s: Seq<char>) -> bool {
        true
    }

    fn validate(_s: &str) -> (r: Result<(), Self::Error>) {
        Ok(())
    }
}

impl AllowEmpty for NoValidation {}

impl AllowEmpty for () {}

} // verus!
