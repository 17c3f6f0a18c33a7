//! Constructors besides `try_new`, and value-level combinators.
use core::convert::Infallible;
use vstd::prelude::*;

use crate::error::GStringError;
use crate::gstring::{check_constraints, GString};
use crate::validator::{validator_answer, AllowEmpty, NoValidation, Validator};

verus! {

/// A value that holds text as a `str`: what `map` builds its result from.
pub trait AsText {
    /// The characters of the text.
    spec fn text(&self) -> Seq<char>;

    /// The text.
    fn as_text(&self) -> (r: &str)
        ensures
            r@ == self.text(),
    ;
}

impl AsText for String {
    open spec fn text(&self) -> Seq<char> {
        self@
    }

    fn as_text(&self) -> (r: &str) {
        self.as_str()
    }
}

impl<'a> AsText for &'a str {
    open spec fn text(&self) -> Seq<char> {
        (*self)@
    }

    fn as_text(&self) -> (r: &str) {
        *self
    }
}

impl<V: Validator, const MIN: usize, const MAX: usize, const ASCII_ONLY: bool> AsText for GString<
    V,
    MIN,
    MAX,
    ASCII_ONLY,
> {
    open spec fn text(&self) -> Seq<char> {
        self@
    }

    fn as_text(&self) -> (r: &str) {
        self.as_str()
    }
}

impl GString<NoValidation, 0, 255, false> {
    /// Construct with the default parameters: no validation, 0 to 255 bytes, any characters.
    pub fn try_default(s: &str) -> (r: Result<Self, GStringError<Infallible>>)
        ensures
            Self::construction_outcome(s@, r),
    {
        Self::try_new(s)
    }
}

/// A string that passed the length and ASCII checks but not yet the validator.
#[derive(Debug)]
pub struct InValidatedGString<V: Validator, const MIN: usize, const MAX: usize, const ASCII_ONLY: bool>(
    GString<V, MIN, MAX, ASCII_ONLY>,
);

impl<V: Validator, const MIN: usize, const MAX: usize, const ASCII_ONLY: bool> View for InValidatedGString<
    V,
    MIN,
    MAX,
    ASCII_ONLY,
> {
    type V = Seq<char>;

    closed spec fn view(&self) -> Seq<char> {
        self.0@
    }
}

impl<V: Validator, const MIN: usize, const MAX: usize, const ASCII_ONLY: bool> InValidatedGString<
    V,
    MIN,
    MAX,
    ASCII_ONLY,
> {
    /// Runs the validator, giving the `GString` when it accepts.
    pub fn validate(self) -> (r: Result<GString<V, MIN, MAX, ASCII_ONLY>, GStringError<V::Error>>)
        ensures
            match r {
                Ok(g) => g@ == self@ && validator_answer::<V>(self@, Ok(())),
                Err(GStringError::Validation(e)) => validator_answer::<V>(self@, Err(e)),
                Err(_) => false,
            },
    {
        self.0.validate()
    }
}

impl<V: Validator, const MIN: usize, const MAX: usize, const ASCII_ONLY: bool> GString<
    V,
    MIN,
    MAX,
    ASCII_ONLY,
> {
    /// Builds the string when it is known to pass the length and ASCII checks;
    /// the validator still has to run on the result.
    pub fn new(s: &str) -> (r: InValidatedGString<V, MIN, MAX, ASCII_ONLY>)
        requires
            check_constraints(s@, MIN, MAX, ASCII_ONLY) is None,
        ensures
            r@ == s@,
    {
        match Self::unvalidated(s) {
            Some(g) => InValidatedGString(g),
            None => {
                proof {
                    assert(false);
                }
                InValidatedGString(Self::blank())
            },
        }
    }

    /// Calls `func` with the string and gives the string back unchanged.
    pub fn inspect<F: FnOnce(&str)>(self, func: F) -> (r: Self)
        requires
            forall|s: &str| #[trigger] func.requires((s,)),
        ensures
            r == self,
            exists|s: &str| s@ == self@ && #[trigger] func.ensures((s,), ()),
    {
        let s = self.as_str();
        func(s);
        assert(func.ensures((s,), ()));
        self
    }

    /// Builds a string of another `GString` type from the text of what
    /// `func` makes of this one.
    pub fn map<UV: Validator, const UMIN: usize, const UMAX: usize, const UASCII_ONLY: bool, F: FnOnce(
        &str,
    ) -> U, U: AsText>(self, func: F) -> (r: Result<
        GString<UV, UMIN, UMAX, UASCII_ONLY>,
        GStringError<UV::Error>,
    >)
        requires
            forall|s: &str| #[trigger] func.requires((s,)),
        ensures
            exists|s: &str, out: U|
                s@ == self@ && #[trigger] func.ensures((s,), out)
                    && GString::<UV, UMIN, UMAX, UASCII_ONLY>::construction_outcome(out.text(), r),
    {
        let s = self.as_str();
        let out = func(s);
        let r = GString::<UV, UMIN, UMAX, UASCII_ONLY>::try_new(out.as_text());
        assert(func.ensures((s,), out));
        r
    }

    /// Chains a fallible transformation into another `GString` type.
    pub fn and_then<UV: Validator, const UMIN: usize, const UMAX: usize, const UASCII_ONLY: bool, F: FnOnce(
        &str,
    ) -> Result<GString<UV, UMIN, UMAX, UASCII_ONLY>, GStringError<UV::Error>>>(self, func: F) -> (r:
        Result<GString<UV, UMIN, UMAX, UASCII_ONLY>, GStringError<UV::Error>>)
        requires
            forall|s: &str| #[trigger] func.requires((s,)),
        ensures
            exists|s: &str| s@ == self@ && #[trigger] func.ensures((s,), r),
    {
        let s = self.as_str();
        let r = func(s);
        assert(func.ensures((s,), r));
        r
    }
}

impl<V: Validator + AllowEmpty, const MAX: usize, const ASCII_ONLY: bool> Default for GString<
    V,
    0,
    MAX,
    ASCII_ONLY,
> {
    fn default() -> (r: Self)
        ensures
            r@ == Seq::<char>::empty(),
    {
        Self::blank()
    }
}

} // verus!
