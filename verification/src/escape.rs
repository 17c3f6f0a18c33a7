//! Escaping, UTF-16 encoding and ASCII case-insensitive comparison.
use vstd::prelude::*;
use vstd::std_specs::iter::IteratorSpec;
use vstd::string::StringSliceAdditionalSpecFns;
use vstd::utf8::*;

use crate::encoding::{encode_char, lemma_encode_concat, lemma_encode_single};
use crate::gstring::GString;
use crate::text::str_from_utf8;
use crate::validator::Validator;

verus! {

/// The ASCII lower-case form of a byte; other bytes are left as they are.
pub open spec fn ascii_lower(b: u8) -> u8 {
    if 65 <= b <= 90 {
        (b + 32) as u8
    } else {
        b
    }
}

/// `a` and `b` are equal up to ASCII case.
pub open spec fn eq_up_to_ascii_case(a: Seq<u8>, b: Seq<u8>) -> bool {
    a.len() == b.len() && forall|i: int| 0 <= i < a.len() ==> ascii_lower(#[trigger] a[i]) == ascii_lower(b[i])
}

/// The UTF-16 code units of one character.
pub open spec fn utf16_units(c: char) -> Seq<u16> {
    let v = c as u32;
    if v < 0x10000 {
        seq![v as u16]
    } else {
        let w = v - 0x10000;
        seq![(0xd800 + w / 0x400) as u16, (0xdc00 + w % 0x400) as u16]
    }
}

/// The UTF-16 encoding of `s`.
pub open spec fn encode_utf16_chars(s: Seq<char>) -> Seq<u16>
    decreases s.len(),
{
    if s.len() == 0 {
        Seq::empty()
    } else {
        utf16_units(s[0]) + encode_utf16_chars(s.drop_first())
    }
}

/// The lower-case hexadecimal digit for a value below sixteen.
pub open spec fn hex_digit(d: nat) -> char {
    if d < 10 {
        (48 + d) as char
    } else {
        (87 + d) as char
    }
}

/// Lower-case hexadecimal rendering of `n`, without leading zeros.
pub open spec fn hex(n: nat) -> Seq<char>
    decreases n,
{
    if n < 16 {
        seq![hex_digit(n)]
    } else {
        hex(n / 16).push(hex_digit(n % 16))
    }
}

/// `\u{NNNN}`: the character's scalar value in hexadecimal.
pub open spec fn unicode_escape(c: char) -> Seq<char> {
    seq!['\\', 'u', '{'] + hex(c as u32 as nat) + seq!['}']
}

/// The escape of one character that `char::escape_default` gives: the usual
/// backslash escapes, printable ASCII as it is, and `\u{NNNN}` otherwise.
pub open spec fn default_escape(c: char) -> Seq<char> {
    let v = c as u32;
    if c == '\t' {
        seq!['\\', 't']
    } else if c == '\r' {
        seq!['\\', 'r']
    } else if c == '\n' {
        seq!['\\', 'n']
    } else if c == '\\' || c == '\'' || c == '"' {
        seq!['\\', c]
    } else if 0x20 <= v <= 0x7e {
        seq![c]
    } else {
        unicode_escape(c)
    }
}

/// Every character of `s` escaped by `unicode_escape`.
pub open spec fn escape_unicode_chars(s: Seq<char>) -> Seq<char>
    decreases s.len(),
{
    if s.len() == 0 {
        Seq::empty()
    } else {
        unicode_escape(s[0]) + escape_unicode_chars(s.drop_first())
    }
}

/// Every character of `s` escaped by `default_escape`.
pub open spec fn escape_default_chars(s: Seq<char>) -> Seq<char>
    decreases s.len(),
{
    if s.len() == 0 {
        Seq::empty()
    } else {
        default_escape(s[0]) + escape_default_chars(s.drop_first())
    }
}

/// What `str::escape_debug` renders `s` as.
pub uninterp spec fn debug_escaped(s: Seq<char>) -> Seq<char>;

/// Escapes `s` as `str::escape_debug` does.
///
/// Calls `str::escape_debug` and collects the characters it yields. Which
/// characters it escapes depends on Unicode tables (grapheme extenders and
/// printable characters), so the result is only named.
#[verifier::external_body]
fn str_escape_debug(s: &str) -> (r: String)
    ensures
        r@ == debug_escaped(s@),
{
    s.escape_debug().collect()
}

/// Appends the UTF-8 encoding of `c`.
fn push_char(out: &mut Vec<u8>, c: char)
    ensures
        final(out)@ == old(out)@ + encode_utf8(seq![c]),
{
    let (buf, w) = encode_char(c);
    proof {
        lemma_encode_single(c);
    }
    let ghost start = out@;
    let mut k: usize = 0;
    while k < w
        invariant
            w <= 4,
            k <= w,
            buf@.subrange(0, w as int) == encode_scalar(c as u32),
            out@ == start + buf@.subrange(0, k as int),
        decreases w - k,
    {
        out.push(buf[k]);
        proof {
            assert(buf@.subrange(0, k + 1) =~= buf@.subrange(0, k as int).push(buf@[k as int]));
        }
        k += 1;
    }
}

/// The character for a hexadecimal digit.
fn hex_digit_char(d: u32) -> (c: char)
    requires
        d < 16,
    ensures
        c == hex_digit(d as nat),
{
    if d < 10 {
        ((48 + d) as u8) as char
    } else {
        ((87 + d) as u8) as char
    }
}

/// Appends the UTF-8 encoding of `hex(n)`.
fn push_hex(out: &mut Vec<u8>, n: u32)
    ensures
        final(out)@ == old(out)@ + encode_utf8(hex(n as nat)),
    decreases n,
{
    if n < 16 {
        push_char(out, hex_digit_char(n));
    } else {
        push_hex(out, n / 16);
        push_char(out, hex_digit_char(n % 16));
        proof {
            let head = hex((n / 16) as nat);
            assert(hex(n as nat) == head + seq![hex_digit((n % 16) as nat)]);
            lemma_encode_concat(head, seq![hex_digit((n % 16) as nat)]);
        }
    }
}

/// Appends the UTF-8 encoding of `unicode_escape(c)`.
fn push_unicode_escape(out: &mut Vec<u8>, c: char)
    ensures
        final(out)@ == old(out)@ + encode_utf8(unicode_escape(c)),
{
    let ghost start = out@;
    push_char(out, '\\');
    push_char(out, 'u');
    push_char(out, '{');
    push_hex(out, c as u32);
    push_char(out, '}');
    proof {
        let h = hex(c as u32 as nat);
        lemma_encode_concat(seq!['\\'], seq!['u']);
        lemma_encode_concat(seq!['\\', 'u'], seq!['{']);
        assert(seq!['\\'] + seq!['u'] =~= seq!['\\', 'u']);
        assert(seq!['\\', 'u'] + seq!['{'] =~= seq!['\\', 'u', '{']);
        lemma_encode_concat(seq!['\\', 'u', '{'], h);
        lemma_encode_concat(seq!['\\', 'u', '{'] + h, seq!['}']);
    }
}

/// Appends the UTF-8 encoding of `default_escape(c)`.
fn push_default_escape(out: &mut Vec<u8>, c: char)
    ensures
        final(out)@ == old(out)@ + encode_utf8(default_escape(c)),
{
    let v = c as u32;
    if c == '\t' || c == '\r' || c == '\n' || c == '\\' || c == '\'' || c == '"' {
        let e = if c == '\t' {
            't'
        } else if c == '\r' {
            'r'
        } else if c == '\n' {
            'n'
        } else {
            c
        };
        push_char(out, '\\');
        push_char(out, e);
        proof {
            lemma_encode_concat(seq!['\\'], seq![e]);
            assert(seq!['\\'] + seq![e] =~= default_escape(c));
        }
    } else if 0x20 <= v && v <= 0x7e {
        push_char(out, c);
    } else {
        push_unicode_escape(out, c);
    }
}

/// The text whose UTF-8 encoding is `bytes`.
fn text_of(bytes: &Vec<u8>, Ghost(s): Ghost<Seq<char>>) -> (r: String)
    requires
        bytes@ == encode_utf8(s),
    ensures
        r@ == s,
{
    proof {
        encode_utf8_valid_utf8(s);
    }
    let t = str_from_utf8(bytes.as_slice());
    proof {
        encode_utf8_decode_utf8(t@);
        encode_utf8_decode_utf8(s);
    }
    t.to_owned()
}

impl<V: Validator, const MIN: usize, const MAX: usize, const ASCII_ONLY: bool> GString<
    V,
    MIN,
    MAX,
    ASCII_ONLY,
> {
    /// Whether the string equals `other` up to ASCII case.
    pub fn eq_ignore_ascii_case(&self, other: &str) -> (r: bool)
        ensures
            r == eq_up_to_ascii_case(encode_utf8(self@), encode_utf8(other@)),
    {
        let a = self.as_bytes();
        let b = other.as_bytes();
        if a.len() != b.len() {
            return false;
        }
        let mut i: usize = 0;
        while i < a.len()
            invariant
                a@ == encode_utf8(self@),
                b@ == encode_utf8(other@),
                a@.len() == b@.len(),
                i <= a@.len(),
                forall|j: int| 0 <= j < i ==> ascii_lower(#[trigger] a@[j]) == ascii_lower(b@[j]),
            decreases a@.len() - i,
        {
            let x = a[i];
            let y = b[i];
            let lx = if 65 <= x && x <= 90 {
                x + 32
            } else {
                x
            };
            let ly = if 65 <= y && y <= 90 {
                y + 32
            } else {
                y
            };
            if lx != ly {
                assert(ascii_lower(a@[i as int]) != ascii_lower(b@[i as int]));
                return false;
            }
            i += 1;
        }
        true
    }

    /// The UTF-16 code units of the string.
    pub fn encode_utf16(&self) -> (r: std::vec::IntoIter<u16>)
        ensures
            r.remaining() == encode_utf16_chars(self@),
    {
        let mut it = self.clone().into_iter();
        let mut out: Vec<u16> = Vec::new();
        proof {
            assert(out@ + encode_utf16_chars(it@) =~= encode_utf16_chars(self@));
        }
        loop
            invariant
                out@ + encode_utf16_chars(it@) == encode_utf16_chars(self@),
            decreases it@.len(),
        {
            let ghost rest = it@;
            match it.next() {
                None => {
                    proof {
                        assert(out@ + Seq::<u16>::empty() =~= out@);
                    }
                    return out.into_iter();
                },
                Some(c) => {
                    let ghost before = out@;
                    proof {
                        char_is_scalar(c);
                    }
                    let v = c as u32;
                    if v < 0x10000 {
                        out.push(v as u16);
                    } else {
                        let w = v - 0x10000;
                        out.push((0xd800 + w / 0x400) as u16);
                        out.push((0xdc00 + w % 0x400) as u16);
                    }
                    proof {
                        assert(out@ =~= before + utf16_units(c));
                        assert(before + encode_utf16_chars(rest) =~= before + utf16_units(c)
                            + encode_utf16_chars(rest.drop_first()));
                    }
                },
            }
        }
    }

    /// Every character written as `\u{NNNN}`.
    pub fn escape_unicode(&self) -> (r: String)
        ensures
            r@ == escape_unicode_chars(self@),
    {
        let mut it = self.clone().into_iter();
        let mut out: Vec<u8> = Vec::new();
        let ghost mut done: Seq<char> = Seq::empty();
        proof {
            assert(done + escape_unicode_chars(it@) =~= escape_unicode_chars(self@));
        }
        loop
            invariant
                out@ == encode_utf8(done),
                done + escape_unicode_chars(it@) == escape_unicode_chars(self@),
            decreases it@.len(),
        {
            let ghost rest = it@;
            match it.next() {
                None => {
                    proof {
                        assert(done + Seq::<char>::empty() =~= done);
                    }
                    return text_of(&out, Ghost(done));
                },
                Some(c) => {
                    push_unicode_escape(&mut out, c);
                    proof {
                        lemma_encode_concat(done, unicode_escape(c));
                        assert(done + escape_unicode_chars(rest) =~= done + unicode_escape(c)
                            + escape_unicode_chars(rest.drop_first()));
                        done = done + unicode_escape(c);
                    }
                },
            }
        }
    }

    /// Every character escaped as `char::escape_default` does.
    pub fn escape_default(&self) -> (r: String)
        ensures
            r@ == escape_default_chars(self@),
    {
        let mut it = self.clone().into_iter();
        let mut out: Vec<u8> = Vec::new();
        let ghost mut done: Seq<char> = Seq::empty();
        proof {
            assert(done + escape_default_chars(it@) =~= escape_default_chars(self@));
        }
        loop
            invariant
                out@ == encode_utf8(done),
                done + escape_default_chars(it@) == escape_default_chars(self@),
            decreases it@.len(),
        {
            let ghost rest = it@;
            match it.next() {
                None => {
                    proof {
                        assert(done + Seq::<char>::empty() =~= done);
                    }
                    return text_of(&out, Ghost(done));
                },
                Some(c) => {
                    push_default_escape(&mut out, c);
                    proof {
                        lemma_encode_concat(done, default_escape(c));
                        assert(done + escape_default_chars(rest) =~= done + default_escape(c)
                            + escape_default_chars(rest.drop_first()));
                        done = done + default_escape(c);
                    }
                },
            }
        }
    }

    /// The string escaped as `str::escape_debug` does.
    pub fn escape_debug(&self) -> (r: String)
        ensures
            r@ == debug_escaped(self@),
    {
        str_escape_debug(self.as_str())
    }
}

} // verus!
