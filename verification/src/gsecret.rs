//! A secret string: no display, redacted debug text, zeroed on drop.
use core::convert::Infallible;
use vstd::prelude::*;

use crate::error::{lift_error, GStringError};
use crate::gstring::{check_constraints, GString};
use crate::query::formatter_write_str;
use crate::validator::{validator_answer, NoValidation, Validator};
use vstd::std_specs::convert::TryFromSpecImpl;

verus! {

/// Holds a secret (password, key, token) in a `GString`.
///
/// It is not `Copy`, has no display form, and its bytes are overwritten
/// with zeros when it is dropped or zeroized.
#[derive(Clone, PartialEq, Eq, Hash)]
pub struct GSecret<V: Validator, const MIN: usize, const MAX: usize, const ASCII_ONLY: bool> {
    inner: GString<V, MIN, MAX, ASCII_ONLY>,
}

impl<V: Validator, const MIN: usize, const MAX: usize, const ASCII_ONLY: bool> View for GSecret<
    V,
    MIN,
    MAX,
    ASCII_ONLY,
> {
    type V = Seq<char>;

    closed spec fn view(&self) -> Seq<char> {
        self.inner@
    }
}

/// Zeroes a `String` and leaves it empty.
///
/// Calls `zeroize::Zeroize::zeroize` on the `String`, which zeroes its
/// bytes (including spare capacity) and then clears it.
#[verifier::external_body]
fn zeroize_string(s: &mut String)
    ensures
        final(s)@ == Seq::<char>::empty(),
{
    zeroize::Zeroize::zeroize(s)
}

impl GSecret<NoValidation, 0, 255, false> {
    /// Construct with the default parameters.
    pub fn try_default(secret: &str) -> (r: Result<Self, GStringError<Infallible>>)
        ensures
            Self::construction_outcome(secret@, r),
    {
        Self::try_new(secret)
    }
}

impl<V: Validator, const MIN: usize, const MAX: usize, const ASCII_ONLY: bool> GSecret<
    V,
    MIN,
    MAX,
    ASCII_ONLY,
> {
    /// What the constructors return for a candidate secret `s`.
    pub open spec fn construction_outcome(
        s: Seq<char>,
        r: Result<Self, GStringError<V::Error>>,
    ) -> bool {
        match check_constraints(s, MIN, MAX, ASCII_ONLY) {
            Some(e) => r == Err::<Self, GStringError<V::Error>>(lift_error(e)),
            None => {
                ||| (r matches Ok(g) && g@ == s && validator_answer::<V>(s, Ok(())))
                ||| (r matches Err(GStringError::Validation(e)) && validator_answer::<V>(
                    s,
                    Err(e),
                ))
            },
        }
    }

    /// Construct a secret; every constraint of the type is checked.
    pub fn try_new(secret: &str) -> (r: Result<Self, GStringError<V::Error>>)
        ensures
            Self::construction_outcome(secret@, r),
    {
        match GString::<V, MIN, MAX, ASCII_ONLY>::try_new(secret) {
            Ok(inner) => Ok(GSecret { inner }),
            Err(e) => Err(e),
        }
    }

    /// Calls `func` with the secret and returns what it returns.
    pub fn expose<R, F: FnOnce(&str) -> R>(&self, func: F) -> (r: R)
        requires
            forall|s: &str| #[trigger] func.requires((s,)),
        ensures
            exists|s: &str| s@ == self@ && #[trigger] func.ensures((s,), r),
    {
        let s = self.inner.as_str();
        let r = func(s);
        assert(func.ensures((s,), r));
        r
    }

    /// Overwrites the secret with zeros and empties it.
    pub fn zeroize(&mut self)
        ensures
            final(self)@ == Seq::<char>::empty(),
            final(self).storage() == Seq::new(MAX as nat, |i: int| 0u8),
        opens_invariants none
        no_unwind
    {
        self.inner.zeroize();
    }

    /// The whole buffer that holds the secret.
    pub closed spec fn storage(self) -> Seq<u8> {
        self.inner.storage()
    }

    /// The debug text of a secret, which never shows it.
    pub fn debug_string(&self) -> (r: String)
        ensures
            r@ == "GSecret(<REDACTED>)"@,
    {
        String::from_str("GSecret(<REDACTED>)")
    }
}

impl<V: Validator, const MIN: usize, const MAX: usize, const ASCII_ONLY: bool> Drop for GSecret<
    V,
    MIN,
    MAX,
    ASCII_ONLY,
> {
    fn drop(&mut self)
        ensures
            final(self)@ == Seq::<char>::empty(),
            final(self).storage() == Seq::new(MAX as nat, |i: int| 0u8),
        opens_invariants none
        no_unwind
    {
        self.inner.zeroize();
    }
}

impl<V: Validator, const MIN: usize, const MAX: usize, const ASCII_ONLY: bool> zeroize::Zeroize for GSecret<
    V,
    MIN,
    MAX,
    ASCII_ONLY,
> {
    fn zeroize(&mut self)
        ensures
            final(self)@ == Seq::<char>::empty(),
            final(self).storage() == Seq::new(MAX as nat, |i: int| 0u8),
    {
        self.inner.zeroize();
    }
}

impl<V: Validator, const MIN: usize, const MAX: usize, const ASCII_ONLY: bool> zeroize::ZeroizeOnDrop for GSecret<
    V,
    MIN,
    MAX,
    ASCII_ONLY,
> {

}

impl<V: Validator, const MIN: usize, const MAX: usize, const ASCII_ONLY: bool> core::str::FromStr for GSecret<
    V,
    MIN,
    MAX,
    ASCII_ONLY,
> {
    type Err = GStringError<V::Error>;

    fn from_str(s: &str) -> (r: Result<Self, Self::Err>)
        ensures
            Self::construction_outcome(s@, r),
    {
        Self::try_new(s)
    }
}

impl<'a, V: Validator, const MIN: usize, const MAX: usize, const ASCII_ONLY: bool> TryFrom<&'a str> for GSecret<
    V,
    MIN,
    MAX,
    ASCII_ONLY,
> {
    type Error = GStringError<V::Error>;

    fn try_from(value: &'a str) -> (r: Result<Self, Self::Error>)
        ensures
            Self::construction_outcome(value@, r),
    {
        Self::try_new(value)
    }
}

impl<V: Validator, const MIN: usize, const MAX: usize, const ASCII_ONLY: bool> TryFrom<String> for GSecret<
    V,
    MIN,
    MAX,
    ASCII_ONLY,
> {
    type Error = GStringError<V::Error>;

    /// Builds the secret, then zeroes the input `String`.
    fn try_from(value: String) -> (r: Result<Self, Self::Error>)
        ensures
            Self::construction_outcome(value@, r),
    {
        let mut value = value;
        let secret = Self::try_new(value.as_str());
        zeroize_string(&mut value);
        secret
    }
}

impl<
    GV: Validator,
    SV: Validator,
    const MIN: usize,
    const MAX: usize,
    const ASCII_ONLY: bool,
> TryFrom<GString<GV, MIN, MAX, ASCII_ONLY>> for GSecret<SV, MIN, MAX, ASCII_ONLY> {
    type Error = GStringError<SV::Error>;

    fn try_from(value: GString<GV, MIN, MAX, ASCII_ONLY>) -> (r: Result<Self, Self::Error>)
        ensures
            Self::construction_outcome(value@, r),
    {
        Self::try_new(value.as_str())
    }
}

impl<'a, V: Validator, const MIN: usize, const MAX: usize, const ASCII_ONLY: bool> TryFromSpecImpl<&'a str> for GSecret<
    V,
    MIN,
    MAX,
    ASCII_ONLY,
> {
    open spec fn obeys_try_from_spec() -> bool {
        false
    }

    open spec fn try_from_spec(v: &'a str) -> Result<Self, Self::Error> {
        arbitrary()
    }
}

impl<V: Validator, const MIN: usize, const MAX: usize, const ASCII_ONLY: bool> TryFromSpecImpl<String> for GSecret<
    V,
    MIN,
    MAX,
    ASCII_ONLY,
> {
    open spec fn obeys_try_from_spec() -> bool {
        false
    }

    open spec fn try_from_spec(v: String) -> Result<Self, Self::Error> {
        arbitrary()
    }
}

impl<
    GV: Validator,
    SV: Validator,
    const MIN: usize,
    const MAX: usize,
    const ASCII_ONLY: bool,
> TryFromSpecImpl<GString<GV, MIN, MAX, ASCII_ONLY>> for GSecret<SV, MIN, MAX, ASCII_ONLY> {
    open spec fn obeys_try_from_spec() -> bool {
        false
    }

    open spec fn try_from_spec(v: GString<GV, MIN, MAX, ASCII_ONLY>) -> Result<Self, Self::Error> {
        arbitrary()
    }
}

impl<V: Validator, const MIN: usize, const MAX: usize, const ASCII_ONLY: bool> core::fmt::Debug for GSecret<
    V,
    MIN,
    MAX,
    ASCII_ONLY,
> {
    /// Writes the redacted text of `debug_string`, never the secret.
    fn fmt(&self, f: &mut core::fmt::Formatter<'_>) -> (r: core::fmt::Result) {
        let text = self.debug_string();
        formatter_write_str(f, text.as_str())
    }
}

} // verus!
