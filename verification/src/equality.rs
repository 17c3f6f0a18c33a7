//! Equality between `GString`s of any parameters, and with `str` and
//! `String`; hashing.
use vstd::prelude::*;
use vstd::std_specs::cmp::PartialEqSpecImpl;
use vstd::string::StringSliceAdditionalSpecFns;
use vstd::utf8::*;

use crate::gstring::GString;
use crate::text::bytes_eq;
use crate::validator::Validator;

verus! {

/// Two character sequences are equal exactly when their encodings are.
pub proof fn lemma_encoding_injective(a: Seq<char>, b: Seq<char>)
    ensures
        (a == b) <==> (encode_utf8(a) == encode_utf8(b)),
{
    encode_utf8_decode_utf8(a);
    encode_utf8_decode_utf8(b);
}

impl<
    LV: Validator,
    RV: Validator,
    const LMIN: usize,
    const LMAX: usize,
    const LASCII: bool,
    const RMIN: usize,
    const RMAX: usize,
    const RASCII: bool,
> PartialEq<GString<RV, RMIN, RMAX, RASCII>> for GString<LV, LMIN, LMAX, LASCII> {
    fn eq(&self, other: &GString<RV, RMIN, RMAX, RASCII>) -> (r: bool) {
        proof {
            lemma_encoding_injective(self@, other@);
        }
        bytes_eq(self.as_bytes(), other.as_bytes())
    }
}

impl<
    LV: Validator,
    RV: Validator,
    const LMIN: usize,
    const LMAX: usize,
    const LASCII: bool,
    const RMIN: usize,
    const RMAX: usize,
    const RASCII: bool,
> PartialEqSpecImpl<GString<RV, RMIN, RMAX, RASCII>> for GString<LV, LMIN, LMAX, LASCII> {
    open spec fn obeys_eq_spec() -> bool {
        true
    }

    open spec fn eq_spec(&self, other: &GString<RV, RMIN, RMAX, RASCII>) -> bool {
        self@ == other@
    }
}

impl<V: Validator, const MIN: usize, const MAX: usize, const ASCII_ONLY: bool> PartialEq<str> for GString<
    V,
    MIN,
    MAX,
    ASCII_ONLY,
> {
    fn eq(&self, other: &str) -> (r: bool) {
        proof {
            lemma_encoding_injective(self@, other@);
        }
        bytes_eq(self.as_bytes(), other.as_bytes())
    }
}

impl<V: Validator, const MIN: usize, const MAX: usize, const ASCII_ONLY: bool> PartialEqSpecImpl<str> for GString<
    V,
    MIN,
    MAX,
    ASCII_ONLY,
> {
    open spec fn obeys_eq_spec() -> bool {
        true
    }

    open spec fn eq_spec(&self, other: &str) -> bool {
        self@ == other@
    }
}

impl<'a, V: Validator, const MIN: usize, const MAX: usize, const ASCII_ONLY: bool> PartialEq<&'a str> for GString<
    V,
    MIN,
    MAX,
    ASCII_ONLY,
> {
    fn eq(&self, other: &&'a str) -> (r: bool) {
        proof {
            lemma_encoding_injective(self@, (*other)@);
        }
        bytes_eq(self.as_bytes(), other.as_bytes())
    }
}

impl<'a, V: Validator, const MIN: usize, const MAX: usize, const ASCII_ONLY: bool> PartialEqSpecImpl<&'a str> for GString<
    V,
    MIN,
    MAX,
    ASCII_ONLY,
> {
    open spec fn obeys_eq_spec() -> bool {
        true
    }

    open spec fn eq_spec(&self, other: &&'a str) -> bool {
        self@ == (*other)@
    }
}

impl<V: Validator, const MIN: usize, const MAX: usize, const ASCII_ONLY: bool> PartialEq<
    GString<V, MIN, MAX, ASCII_ONLY>,
> for str {
    fn eq(&self, other: &GString<V, MIN, MAX, ASCII_ONLY>) -> (r: bool) {
        proof {
            lemma_encoding_injective(self@, other@);
        }
        bytes_eq(self.as_bytes(), other.as_bytes())
    }
}

impl<V: Validator, const MIN: usize, const MAX: usize, const ASCII_ONLY: bool> PartialEqSpecImpl<
    GString<V, MIN, MAX, ASCII_ONLY>,
> for str {
    open spec fn obeys_eq_spec() -> bool {
        true
    }

    open spec fn eq_spec(&self, other: &GString<V, MIN, MAX, ASCII_ONLY>) -> bool {
        self@ == other@
    }
}

impl<'a, V: Validator, const MIN: usize, const MAX: usize, const ASCII_ONLY: bool> PartialEq<
    GString<V, MIN, MAX, ASCII_ONLY>,
> for &'a str {
    fn eq(&self, other: &GString<V, MIN, MAX, ASCII_ONLY>) -> (r: bool) {
        proof {
            lemma_encoding_injective((*self)@, other@);
        }
        bytes_eq(self.as_bytes(), other.as_bytes())
    }
}

impl<'a, V: Validator, const MIN: usize, const MAX: usize, const ASCII_ONLY: bool> PartialEqSpecImpl<
    GString<V, MIN, MAX, ASCII_ONLY>,
> for &'a str {
    open spec fn obeys_eq_spec() -> bool {
        true
    }

    open spec fn eq_spec(&self, other: &GString<V, MIN, MAX, ASCII_ONLY>) -> bool {
        (*self)@ == other@
    }
}

impl<V: Validator, const MIN: usize, const MAX: usize, const ASCII_ONLY: bool> PartialEq<String> for GString<V, MIN, MAX, ASCII_ONLY> {
    fn eq(&self, other: &String) -> (r: bool) {
        proof {
            lemma_encoding_injective(self@, other@);
        }
        bytes_eq(self.as_bytes(), other.as_str().as_bytes())
    }
}

impl<V: Validator, const MIN: usize, const MAX: usize, const ASCII_ONLY: bool> PartialEqSpecImpl<String> for GString<V, MIN, MAX, ASCII_ONLY> {
    open spec fn obeys_eq_spec() -> bool {
        true
    }

    open spec fn eq_spec(&self, other: &String) -> bool {
        self@ == other@
    }
}

impl<V: Validator, const MIN: usize, const MAX: usize, const ASCII_ONLY: bool> PartialEq<GString<V, MIN, MAX, ASCII_ONLY>> for String {
    fn eq(&self, other: &GString<V, MIN, MAX, ASCII_ONLY>) -> (r: bool) {
        proof {
            lemma_encoding_injective(self@, other@);
        }
        bytes_eq(self.as_str().as_bytes(), other.as_bytes())
    }
}

impl<V: Validator, const MIN: usize, const MAX: usize, const ASCII_ONLY: bool> PartialEqSpecImpl<GString<V, MIN, MAX, ASCII_ONLY>> for String {
    open spec fn obeys_eq_spec() -> bool {
        true
    }

    open spec fn eq_spec(&self, other: &GString<V, MIN, MAX, ASCII_ONLY>) -> bool {
        self@ == other@
    }
}

impl<V: Validator, const MIN: usize, const MAX: usize, const ASCII_ONLY: bool> core::hash::Hash for GString<V, MIN, MAX, ASCII_ONLY> {
    /// Feeds the text to `state` as `str` does, so that equal strings (of
    /// any bounds, and equal `str`s) hash alike.
    ///
    /// Calls `<str as Hash>::hash` on the text.
    #[verifier::external_body]
    fn hash<H: core::hash::Hasher>(&self, state: &mut H) {
        self.as_str().hash(state)
    }
}

} // verus!
