//! Read-only queries on a `GString`.
use std::str::Chars;
use vstd::prelude::*;
use vstd::slice::slice_to_vec;
use vstd::std_specs::iter::IteratorSpec;
use vstd::string::{StrSliceExecFns, StringExecFns, StringSliceAdditionalSpecFns};
use vstd::utf8::*;

use crate::encoding::{encode_char, is_boundary, lemma_encode_concat, lemma_encode_single};
use crate::gstring::{lemma_gstring_bounds, GString};
use crate::text::{decimal, usize_to_string, utf8_len};
use crate::validator::Validator;

verus! {

impl<V: Validator, const MIN: usize, const MAX: usize, const ASCII_ONLY: bool> GString<
    V,
    MIN,
    MAX,
    ASCII_ONLY,
> {
    /// The capacity in bytes, `MAX`.
    pub fn capacity(&self) -> (r: usize)
        ensures
            r == MAX,
    {
        MAX
    }

    /// Number of characters (Unicode scalar values).
    pub fn count(&self) -> (r: usize)
        ensures
            r == self@.len(),
    {
        self.as_str().unicode_len()
    }

    /// Whether the string is empty.
    pub fn is_empty(&self) -> (r: bool)
        ensures
            r == (self@.len() == 0),
    {
        proof {
            if self@.len() > 0 {
                vstd::utf8::encode_utf8_first_scalar(self@);
            }
        }
        self.len() == 0
    }

    /// Whether the string uses all `MAX` bytes.
    pub fn is_full(&self) -> (r: bool)
        ensures
            r == (utf8_len(self@) == MAX),
    {
        self.len() == MAX
    }

    /// Whether byte index `index` falls on a character boundary (or an end).
    pub fn is_char_boundary(&self, index: usize) -> (r: bool)
        ensures
            r == is_boundary(self@, index as int),
    {
        self.as_str().is_char_boundary(index)
    }

    /// Whether every character is ASCII.
    pub fn is_ascii(&self) -> (r: bool)
        ensures
            r == is_ascii_chars(self@),
    {
        self.as_str().is_ascii()
    }

    /// An iterator over the characters.
    pub fn chars(&self) -> (r: Chars<'_>)
        ensures
            r.remaining() == self@,
    {
        self.as_str().chars()
    }

    /// The string as an owned `String`.
    pub fn to_string(&self) -> (r: String)
        ensures
            r@ == self@,
    {
        self.as_str().to_owned()
    }

    /// The characters with the byte index where each starts.
    pub fn char_indices(&self) -> (r: std::vec::IntoIter<(usize, char)>)
        ensures
            r.remaining().len() == self@.len(),
            forall|i: int|
                0 <= i < self@.len() ==> #[trigger] r.remaining()[i] == (
                    utf8_len(self@.subrange(0, i)) as usize,
                    self@[i],
                ),
    {
        let s = self.as_str();
        let n = s.unicode_len();
        let mut out: Vec<(usize, char)> = Vec::new();
        let mut pos: usize = 0;
        let mut i: usize = 0;
        proof {
            lemma_gstring_bounds(*self);
            assert(s@.subrange(0, 0) =~= Seq::<char>::empty());
        }
        while i < n
            invariant
                n == s@.len(),
                s@ == self@,
                utf8_len(s@) <= MAX,
                i <= n,
                out@.len() == i,
                pos == utf8_len(s@.subrange(0, i as int)),
                forall|j: int|
                    0 <= j < i ==> #[trigger] out@[j] == (
                        utf8_len(s@.subrange(0, j)) as usize,
                        s@[j],
                    ),
            decreases n - i,
        {
            let c = s.get_char(i);
            out.push((pos, c));
            let (_, w) = encode_char(c);
            proof {
                let head = s@.subrange(0, i as int);
                let next = s@.subrange(0, i + 1);
                assert(next =~= head + seq![c]);
                lemma_encode_concat(head, seq![c]);
                lemma_encode_single(c);
                assert(s@ =~= next + s@.subrange(i + 1, n as int));
                lemma_encode_concat(next, s@.subrange(i + 1, n as int));
            }
            pos += w;
            i += 1;
        }
        out.into_iter()
    }

    /// The bytes of the UTF-8 encoding.
    pub fn bytes(&self) -> (r: std::vec::IntoIter<u8>)
        ensures
            r.remaining() == encode_utf8(self@),
    {
        slice_to_vec(self.as_bytes()).into_iter()
    }

    /// How the string is shown for debugging:
    /// `GString("<text>", MIN=<min>, MAX=<max>, ASCII_ONLY=<flag>)`.
    pub fn debug_string(&self) -> (r: String)
        ensures
            r@ == "GString(\""@ + self@ + "\", MIN="@ + decimal(MIN as nat) + ", MAX="@ + decimal(
                MAX as nat,
            ) + ", ASCII_ONLY="@ + bool_text(ASCII_ONLY) + ")"@,
    {
        let mut out = String::from_str("GString(\"");
        out.append(self.as_str());
        out.append("\", MIN=");
        out.append(usize_to_string(MIN).as_str());
        out.append(", MAX=");
        out.append(usize_to_string(MAX).as_str());
        out.append(", ASCII_ONLY=");
        out.append(if ASCII_ONLY {
            "true"
        } else {
            "false"
        });
        out.append(")");
        out
    }
}

/// `true` or `false`, spelled out.
pub open spec fn bool_text(b: bool) -> Seq<char> {
    if b {
        "true"@
    } else {
        "false"@
    }
}

#[verifier::external_type_specification]
#[verifier::external_body]
pub struct ExFormatter<'a>(core::fmt::Formatter<'a>);

/// Writes `s` to the formatter.
///
/// Calls `core::fmt::Formatter::write_str`; whether the sink accepts the
/// text is up to the sink, so nothing is stated of the result.
#[verifier::external_body]
pub(crate) fn formatter_write_str(f: &mut core::fmt::Formatter<'_>, s: &str) -> (r: core::fmt::Result) {
    f.write_str(s)
}

impl<V: Validator, const MIN: usize, const MAX: usize, const ASCII_ONLY: bool> core::fmt::Debug for GString<
    V,
    MIN,
    MAX,
    ASCII_ONLY,
> {
    /// Writes the text of `debug_string`.
    fn fmt(&self, f: &mut core::fmt::Formatter<'_>) -> (r: core::fmt::Result) {
        let text = self.debug_string();
        formatter_write_str(f, text.as_str())
    }
}

} // verus!
