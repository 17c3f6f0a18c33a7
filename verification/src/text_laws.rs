//! Laws on whitespace, trimming, words, lines and escapes: what each result
//! is, stated from the text it came from.
use vstd::prelude::*;

use crate::trim::{is_whitespace, trim_chars, trim_end_chars, trim_start_chars};
use crate::escape::{default_escape, escape_default_chars, hex, hex_digit, unicode_escape};
use crate::words::{line_runs, lines_of, pieces, word_runs, words};

verus! {

/// Whitespace is the Unicode `White_Space` property: among ASCII the space,
/// tab, line feed, vertical tab, form feed and carriage return; beyond it
/// the next line, no-break space, Ogham space mark, the spaces from en quad
/// to hair space, the line and paragraph separators, the narrow no-break
/// space, the medium mathematical space and the ideographic space.
pub proof fn law_whitespace(c: char)
    ensures
        c <= '\u{7f}' ==> (is_whitespace(c) <==> (c == ' ' || c == '\t' || c == '\n' || c
            == '\u{b}' || c == '\u{c}' || c == '\r')),
        c > '\u{7f}' ==> (is_whitespace(c) <==> (c == '\u{85}' || c == '\u{a0}' || c
            == '\u{1680}' || ('\u{2000}' <= c <= '\u{200a}') || c == '\u{2028}' || c
            == '\u{2029}' || c == '\u{202f}' || c == '\u{205f}' || c == '\u{3000}')),
{
}

/// Trimming the end removes exactly the trailing whitespace: what stays is
/// a beginning of `s`, every character removed is whitespace, and what
/// stays is empty or ends in a character that is not whitespace. One more
/// whitespace character at the end changes nothing.
pub proof fn law_trim_end(s: Seq<char>, c: char)
    ensures
        trim_end_chars(s).len() <= s.len(),
        trim_end_chars(s) == s.subrange(0, trim_end_chars(s).len() as int),
        forall|j: int|
            trim_end_chars(s).len() <= j < s.len() ==> is_whitespace(#[trigger] s[j]),
        trim_end_chars(s).len() == 0 || !is_whitespace(trim_end_chars(s).last()),
        is_whitespace(c) ==> trim_end_chars(s.push(c)) == trim_end_chars(s),
    decreases s.len(),
{
    if is_whitespace(c) {
        assert(s.push(c).drop_last() =~= s);
    }
    if s.len() > 0 && is_whitespace(s.last()) {
        let p = s.drop_last();
        law_trim_end(p, c);
        let t = trim_end_chars(p);
        assert(t == p.subrange(0, t.len() as int));
        assert(p.subrange(0, t.len() as int) =~= s.subrange(0, t.len() as int));
        assert forall|j: int| t.len() <= j < s.len() implies is_whitespace(#[trigger] s[j]) by {
            if j < p.len() {
                assert(p[j] == s[j]);
            }
        }
    } else {
        assert(s.subrange(0, s.len() as int) =~= s);
    }
}

/// Trimming the start removes exactly the leading whitespace: what stays is
/// an end of `s`, every character removed is whitespace, and what stays is
/// empty or begins with a character that is not whitespace. One more
/// whitespace character at the start changes nothing.
pub proof fn law_trim_start(s: Seq<char>, c: char)
    ensures
        trim_start_chars(s).len() <= s.len(),
        trim_start_chars(s) == s.subrange(
            s.len() - trim_start_chars(s).len(),
            s.len() as int,
        ),
        forall|j: int|
            0 <= j < s.len() - trim_start_chars(s).len() ==> is_whitespace(#[trigger] s[j]),
        trim_start_chars(s).len() == 0 || !is_whitespace(trim_start_chars(s)[0]),
        is_whitespace(c) ==> trim_start_chars(seq![c] + s) == trim_start_chars(s),
    decreases s.len(),
{
    if is_whitespace(c) {
        assert((seq![c] + s).drop_first() =~= s);
    }
    if s.len() > 0 && is_whitespace(s[0]) {
        let p = s.drop_first();
        law_trim_start(p, c);
        let t = trim_start_chars(p);
        assert(p.subrange(p.len() - t.len(), p.len() as int) =~= s.subrange(
            s.len() - t.len(),
            s.len() as int,
        ));
        assert forall|j: int| 0 <= j < s.len() - t.len() implies is_whitespace(#[trigger] s[j]) by {
            if j > 0 {
                assert(p[j - 1] == s[j]);
            }
        }
    } else {
        assert(s.subrange(0, s.len() as int) =~= s);
    }
}

/// Trimming both ends removes exactly the leading and trailing whitespace:
/// what stays is the run of `s` from `a` on, every character outside it is
/// whitespace, and it is empty or both begins and ends with a character
/// that is not whitespace.
pub proof fn law_trim(s: Seq<char>)
    ensures
        ({
            let t = trim_chars(s);
            let a = s.len() - trim_start_chars(s).len();
            &&& 0 <= a <= a + t.len() <= s.len()
            &&& t == s.subrange(a, a + t.len())
            &&& forall|j: int|
                0 <= j < s.len() && !(a <= j < a + t.len()) ==> is_whitespace(#[trigger] s[j])
            &&& t.len() == 0 || (!is_whitespace(t[0]) && !is_whitespace(t.last()))
        }),
{
    let c = ' ';
    law_trim_start(s, c);
    let m = trim_start_chars(s);
    law_trim_end(m, c);
    let t = trim_chars(s);
    let a = s.len() - m.len();
    assert(t == m.subrange(0, t.len() as int));
    assert(m.subrange(0, t.len() as int) =~= s.subrange(a, a + t.len()));
    assert forall|j: int| 0 <= j < s.len() && !(a <= j < a + t.len()) implies is_whitespace(
        #[trigger] s[j],
    ) by {
        if j >= a {
            assert(m[j - a] == s[j]);
        }
    }
    if t.len() > 0 {
        assert(t[0] == m[0]);
    }
}

/// The pieces at two runs of ranges, one after the other.
proof fn lemma_pieces_concat(s: Seq<char>, r1: Seq<(int, int)>, r2: Seq<(int, int)>)
    ensures
        pieces(s, r1 + r2) == pieces(s, r1) + pieces(s, r2),
{
    assert(pieces(s, r1 + r2) =~= pieces(s, r1) + pieces(s, r2));
}

/// `s` holds no whitespace character.
pub open spec fn no_whitespace(s: Seq<char>) -> bool {
    forall|j: int| 0 <= j < s.len() ==> !is_whitespace(#[trigger] s[j])
}

/// Word scanning of `p + t` from inside `t` finds what scanning `t` finds.
proof fn lemma_word_runs_shift(p: Seq<char>, t: Seq<char>, j: int, cur: int)
    requires
        0 <= j <= t.len(),
        -1 <= cur <= j,
    ensures
        pieces(p + t, word_runs(p + t, p.len() + j, if cur >= 0 {
            p.len() + cur
        } else {
            -1
        })) == pieces(t, word_runs(t, j, cur)),
    decreases t.len() - j,
{
    let u = p + t;
    let k = p.len() as int;
    let cu = if cur >= 0 {
        k + cur
    } else {
        -1
    };
    if j >= t.len() {
        if cur >= 0 {
            assert(pieces(u, word_runs(u, k + j, cu)) =~= seq![u.subrange(k + cur, u.len() as int)]);
            assert(pieces(t, word_runs(t, j, cur)) =~= seq![t.subrange(cur, t.len() as int)]);
            assert(u.subrange(k + cur, u.len() as int) =~= t.subrange(cur, t.len() as int));
        } else {
            assert(pieces(u, word_runs(u, k + j, cu)) =~= Seq::<Seq<char>>::empty());
            assert(pieces(t, word_runs(t, j, cur)) =~= Seq::<Seq<char>>::empty());
        }
    } else {
        assert(u[k + j] == t[j]);
        if is_whitespace(t[j]) {
            lemma_word_runs_shift(p, t, j + 1, -1);
            let hu: Seq<(int, int)> = if cu >= 0 {
                seq![(cu, k + j)]
            } else {
                Seq::empty()
            };
            let ht: Seq<(int, int)> = if cur >= 0 {
                seq![(cur, j)]
            } else {
                Seq::empty()
            };
            lemma_pieces_concat(u, hu, word_runs(u, k + j + 1, -1));
            lemma_pieces_concat(t, ht, word_runs(t, j + 1, -1));
            if cur >= 0 {
                assert(u.subrange(k + cur, k + j) =~= t.subrange(cur, j));
                assert(pieces(u, hu) =~= seq![t.subrange(cur, j)]);
                assert(pieces(t, ht) =~= seq![t.subrange(cur, j)]);
            } else {
                assert(pieces(u, hu) =~= Seq::<Seq<char>>::empty());
                assert(pieces(t, ht) =~= Seq::<Seq<char>>::empty());
            }
        } else {
            lemma_word_runs_shift(p, t, j + 1, if cur >= 0 {
                cur
            } else {
                j
            });
        }
    }
}

/// Scanning a run of characters that are not whitespace from its start.
proof fn lemma_word_runs_scan(s: Seq<char>, x: Seq<char>, i: int)
    requires
        x.len() > 0,
        no_whitespace(x),
        s.len() >= x.len(),
        s.subrange(0, x.len() as int) == x,
        1 <= i <= x.len(),
    ensures
        word_runs(s, 0, -1) == word_runs(s, i, 0),
    decreases i,
{
    assert(s[0] == x[0]);
    if i > 1 {
        lemma_word_runs_scan(s, x, i - 1);
        assert(s[i - 1] == x[i - 1]);
    }
}

/// The words of a text are its maximal runs of characters that are not
/// whitespace, in order: an empty text has none; leading whitespace adds
/// none; a run `x` of non-whitespace characters ended by whitespace, or by
/// the end of the text, is one word, followed by the words of the rest.
pub proof fn law_words(x: Seq<char>, c: char, t: Seq<char>)
    ensures
        words(Seq::empty()) == Seq::<Seq<char>>::empty(),
        is_whitespace(c) ==> words(seq![c] + t) == words(t),
        x.len() > 0 && no_whitespace(x) ==> words(x) == seq![x],
        x.len() > 0 && no_whitespace(x) && is_whitespace(c) ==> words(x + seq![c] + t) == seq![x]
            + words(t),
{
    assert(words(Seq::empty()) =~= Seq::<Seq<char>>::empty());
    if is_whitespace(c) {
        let u = seq![c] + t;
        assert(u[0] == c);
        assert(word_runs(u, 0, -1) =~= Seq::<(int, int)>::empty() + word_runs(u, 1, -1));
        lemma_word_runs_shift(seq![c], t, 0, -1);
    }
    if x.len() > 0 && no_whitespace(x) {
        assert(x.subrange(0, x.len() as int) =~= x);
        lemma_word_runs_scan(x, x, x.len() as int);
        assert(words(x) =~= seq![x]);
        if is_whitespace(c) {
            let u = x + seq![c] + t;
            let n = x.len() as int;
            assert(u.subrange(0, n) =~= x);
            lemma_word_runs_scan(u, x, n);
            assert(u[n] == c);
            assert(word_runs(u, n, 0) == seq![(0, n)] + word_runs(u, n + 1, -1));
            lemma_pieces_concat(u, seq![(0, n)], word_runs(u, n + 1, -1));
            assert(pieces(u, seq![(0, n)]) =~= seq![x]);
            assert(u =~= (x + seq![c]) + t);
            lemma_word_runs_shift(x + seq![c], t, 0, -1);
        }
    }
}

/// `s` holds no line feed.
pub open spec fn no_line_feed(s: Seq<char>) -> bool {
    forall|j: int| 0 <= j < s.len() ==> #[trigger] s[j] != '\n'
}

/// Line scanning of `p + t` from inside `t` finds what scanning `t` finds.
proof fn lemma_line_runs_shift(p: Seq<char>, t: Seq<char>, j: int, st: int)
    requires
        0 <= st <= j <= t.len(),
    ensures
        pieces(p + t, line_runs(p + t, p.len() + j, p.len() + st)) == pieces(t, line_runs(t, j, st)),
    decreases t.len() - j,
{
    let u = p + t;
    let k = p.len() as int;
    if j >= t.len() {
        if st < t.len() {
            assert(pieces(u, line_runs(u, k + j, k + st)) =~= seq![u.subrange(k + st, u.len() as int)]);
            assert(pieces(t, line_runs(t, j, st)) =~= seq![t.subrange(st, t.len() as int)]);
            assert(u.subrange(k + st, u.len() as int) =~= t.subrange(st, t.len() as int));
        } else {
            assert(pieces(u, line_runs(u, k + j, k + st)) =~= Seq::<Seq<char>>::empty());
            assert(pieces(t, line_runs(t, j, st)) =~= Seq::<Seq<char>>::empty());
        }
    } else {
        assert(u[k + j] == t[j]);
        if t[j] == '\n' {
            lemma_line_runs_shift(p, t, j + 1, j + 1);
            if j > st {
                assert(u[k + j - 1] == t[j - 1]);
            }
            let end = if j > st && t[j - 1] == '\r' {
                j - 1
            } else {
                j
            };
            lemma_pieces_concat(u, seq![(k + st, k + end)], line_runs(u, k + j + 1, k + j + 1));
            lemma_pieces_concat(t, seq![(st, end)], line_runs(t, j + 1, j + 1));
            assert(u.subrange(k + st, k + end) =~= t.subrange(st, end));
            assert(pieces(u, seq![(k + st, k + end)]) =~= seq![t.subrange(st, end)]);
            assert(pieces(t, seq![(st, end)]) =~= seq![t.subrange(st, end)]);
        } else {
            lemma_line_runs_shift(p, t, j + 1, st);
        }
    }
}

/// Scanning a beginning `x` of `s` that holds no line feed.
proof fn lemma_line_runs_scan(s: Seq<char>, x: Seq<char>, i: int)
    requires
        no_line_feed(x),
        s.len() >= x.len(),
        s.subrange(0, x.len() as int) == x,
        0 <= i <= x.len(),
    ensures
        line_runs(s, 0, 0) == line_runs(s, i, 0),
    decreases i,
{
    if i > 0 {
        lemma_line_runs_scan(s, x, i - 1);
        assert(s[i - 1] == x[i - 1]);
    }
}

/// The lines of a text, in order, without their line endings: an empty
/// text has none; a last line `x` without a line feed is one line when it is
/// not empty; a line `x` ended by `\r\n`, or by `\n` alone, is `x` (a `\r`
/// before the `\n` never stays, also when the line is empty), followed by
/// the lines of the rest.
pub proof fn law_lines(x: Seq<char>, t: Seq<char>)
    requires
        no_line_feed(x),
    ensures
        lines_of(Seq::empty()) == Seq::<Seq<char>>::empty(),
        x.len() > 0 ==> lines_of(x) == seq![x],
        lines_of(x + seq!['\r', '\n'] + t) == seq![x] + lines_of(t),
        x.len() == 0 || x.last() != '\r' ==> lines_of(x + seq!['\n'] + t) == seq![x] + lines_of(t),
{
    let n = x.len() as int;
    assert(lines_of(Seq::empty()) =~= Seq::<Seq<char>>::empty());
    assert(x.subrange(0, n) =~= x);
    lemma_line_runs_scan(x, x, n);
    if n > 0 {
        assert(lines_of(x) =~= seq![x]);
    }
    let u = x + seq!['\r', '\n'] + t;
    let xr = x.push('\r');
    assert(no_line_feed(xr)) by {
        assert forall|j: int| 0 <= j < xr.len() implies #[trigger] xr[j] != '\n' by {
            if j < n {
                assert(xr[j] == x[j]);
            }
        }
    }
    assert(u.subrange(0, n + 1) =~= xr);
    lemma_line_runs_scan(u, xr, n + 1);
    assert(u[n + 1] == '\n');
    assert(u[n] == '\r');
    assert(line_runs(u, n + 1, 0) == seq![(0, n)] + line_runs(u, n + 2, n + 2));
    lemma_pieces_concat(u, seq![(0, n)], line_runs(u, n + 2, n + 2));
    assert(u.subrange(0, n) =~= x);
    assert(pieces(u, seq![(0, n)]) =~= seq![x]);
    let p = x + seq!['\r', '\n'];
    assert(u =~= p + t);
    lemma_line_runs_shift(p, t, 0, 0);
    if n == 0 || x.last() != '\r' {
        let v = x + seq!['\n'] + t;
        assert(v.subrange(0, n) =~= x);
        lemma_line_runs_scan(v, x, n);
        assert(v[n] == '\n');
        if n > 0 {
            assert(v[n - 1] == x.last());
        }
        assert(line_runs(v, n, 0) == seq![(0, n)] + line_runs(v, n + 1, n + 1));
        lemma_pieces_concat(v, seq![(0, n)], line_runs(v, n + 1, n + 1));
        assert(v.subrange(0, n) =~= x);
        assert(pieces(v, seq![(0, n)]) =~= seq![x]);
        let q = x + seq!['\n'];
        assert(v =~= q + t);
        lemma_line_runs_shift(q, t, 0, 0);
    }
}

/// `c` is printable ASCII: a space or a visible ASCII character.
pub open spec fn is_printable_ascii(c: char) -> bool {
    ' ' <= c <= '~'
}

/// The value of a hexadecimal digit, `0`-`9` or `a`-`f`.
pub open spec fn hex_value(d: char) -> int {
    if d <= '9' {
        d as int - 48
    } else {
        d as int - 87
    }
}

/// The number that hexadecimal digits `h` spell, most significant first.
pub open spec fn hex_number(h: Seq<char>) -> int
    decreases h.len(),
{
    if h.len() == 0 {
        0
    } else {
        hex_number(h.drop_last()) * 16 + hex_value(h.last())
    }
}

/// The code point that one escape `e` stands for: a character as it is, a
/// backslash followed by `t`, `r` or `n` for tab, carriage return and line
/// feed, `\u{..}` for the hexadecimal number between the braces, and a
/// backslash followed by any other character for that character.
pub open spec fn unescaped(e: Seq<char>) -> int {
    if e.len() == 1 {
        e[0] as int
    } else if e[1] == 't' {
        9
    } else if e[1] == 'r' {
        13
    } else if e[1] == 'n' {
        10
    } else if e[1] == 'u' {
        hex_number(e.subrange(3, e.len() - 1))
    } else {
        e[1] as int
    }
}

/// A hexadecimal digit is `0`-`9` or `a`-`f`, and has the value it stands for.
proof fn lemma_hex_digit(d: nat)
    requires
        d < 16,
    ensures
        ('0' <= hex_digit(d) <= '9') || ('a' <= hex_digit(d) <= 'f'),
        hex_value(hex_digit(d)) == d,
{
}

/// The hexadecimal rendering of `n` is made of digits `0`-`9`, `a`-`f`,
/// and spells `n`.
proof fn lemma_hex(n: nat)
    ensures
        hex(n).len() > 0,
        forall|j: int|
            0 <= j < hex(n).len() ==> ('0' <= #[trigger] hex(n)[j] <= '9') || ('a' <= hex(n)[j]
                <= 'f'),
        hex_number(hex(n)) == n,
    decreases n,
{
    if n < 16 {
        lemma_hex_digit(n);
        let h = hex(n);
        assert(h == seq![hex_digit(n)]);
        assert(h.drop_last() =~= Seq::<char>::empty());
        assert(hex_number(Seq::<char>::empty()) == 0);
        assert(hex_number(h) == hex_number(h.drop_last()) * 16 + hex_value(h.last()));
    } else {
        lemma_hex(n / 16);
        lemma_hex_digit(n % 16);
        let h = hex(n);
        assert(h.drop_last() =~= hex(n / 16));
        assert(h.last() == hex_digit(n % 16));
        assert(hex_number(h) == hex_number(hex(n / 16)) * 16 + hex_value(hex_digit(n % 16)));
        assert(n == (n / 16) * 16 + n % 16);
        assert forall|j: int| 0 <= j < h.len() implies ('0' <= #[trigger] h[j] <= '9') || ('a'
            <= h[j] <= 'f') by {
            if j < h.len() - 1 {
                assert(h[j] == hex(n / 16)[j]);
            }
        }
    }
}

/// The escape `char::escape_default` gives of one character is made of
/// printable ASCII, stands for that character, and keeps it as it is only
/// when it is printable ASCII other than a backslash or a quote (single or
/// double); otherwise it begins with a backslash. In particular each of a
/// backslash and the two quotes becomes a backslash followed by itself.
pub proof fn law_default_escape(c: char)
    ensures
        ({
            let e = default_escape(c);
            &&& forall|j: int| 0 <= j < e.len() ==> is_printable_ascii(#[trigger] e[j])
            &&& unescaped(e) == c as int
            &&& e.len() == 1 <==> (is_printable_ascii(c) && c != '\\' && c != '\'' && c != '"')
            &&& e.len() == 1 ==> e[0] == c
            &&& e.len() != 1 ==> e.len() >= 2 && e[0] == '\\'
            &&& (c == '\\' || c == '\'' || c == '"') ==> e == seq!['\\', c]
        }),
{
    let e = default_escape(c);
    let v = c as u32;
    if !(c == '\t' || c == '\r' || c == '\n' || c == '\\' || c == '\'' || c == '"' || (0x20 <= v
        <= 0x7e)) {
        lemma_hex(v as nat);
        let h = hex(v as nat);
        assert(e == seq!['\\', 'u', '{'] + h + seq!['}']);
        assert(e.subrange(3, e.len() - 1) =~= h);
        assert forall|j: int| 0 <= j < e.len() implies is_printable_ascii(#[trigger] e[j]) by {
            if 3 <= j < e.len() - 1 {
                assert(e[j] == h[j - 3]);
            }
        }
    }
}

/// The escape `char::escape_unicode` gives of a character is `\u{`, the
/// lower-case hexadecimal digits of its code point, and `}`: printable
/// ASCII that stands for that character.
pub proof fn law_unicode_escape(c: char)
    ensures
        ({
            let e = unicode_escape(c);
            &&& e.len() >= 5
            &&& e[0] == '\\' && e[1] == 'u' && e[2] == '{' && e.last() == '}'
            &&& forall|j: int|
                3 <= j < e.len() - 1 ==> ('0' <= #[trigger] e[j] <= '9') || ('a' <= e[j] <= 'f')
            &&& forall|j: int| 0 <= j < e.len() ==> is_printable_ascii(#[trigger] e[j])
            &&& unescaped(e) == c as int
        }),
{
    let e = unicode_escape(c);
    let h = hex(c as u32 as nat);
    lemma_hex(c as u32 as nat);
    assert(e.subrange(3, e.len() - 1) =~= h);
    assert forall|j: int| 3 <= j < e.len() - 1 implies ('0' <= #[trigger] e[j] <= '9') || ('a'
        <= e[j] <= 'f') by {
        assert(e[j] == h[j - 3]);
    }
    assert forall|j: int| 0 <= j < e.len() implies is_printable_ascii(#[trigger] e[j]) by {
        if 3 <= j < e.len() - 1 {
            assert(e[j] == h[j - 3]);
        }
    }
}

/// Escaping a text escapes each character in turn: the escape of `a + b`
/// is that of `a` followed by that of `b`, and it is made of printable
/// ASCII.
pub proof fn law_escape_default(a: Seq<char>, b: Seq<char>)
    ensures
        escape_default_chars(a + b) == escape_default_chars(a) + escape_default_chars(b),
        forall|j: int|
            0 <= j < escape_default_chars(a).len() ==> is_printable_ascii(
                #[trigger] escape_default_chars(a)[j],
            ),
    decreases a.len(),
{
    if a.len() == 0 {
        assert(a + b =~= b);
        assert(escape_default_chars(a) =~= Seq::<char>::empty());
    } else {
        law_escape_default(a.drop_first(), b);
        assert((a + b).drop_first() =~= a.drop_first() + b);
        assert((a + b)[0] == a[0]);
        law_default_escape(a[0]);
        let e = default_escape(a[0]);
        let r = escape_default_chars(a.drop_first());
        assert(escape_default_chars(a) == e + r);
        assert forall|j: int| 0 <= j < escape_default_chars(a).len() implies is_printable_ascii(
            #[trigger] escape_default_chars(a)[j],
        ) by {
            if j < e.len() {
                assert(escape_default_chars(a)[j] == e[j]);
            } else {
                assert(escape_default_chars(a)[j] == r[j - e.len()]);
            }
        }
        assert(escape_default_chars(a) + escape_default_chars(b) =~= e + (r
            + escape_default_chars(b)));
    }
}

} // verus!
