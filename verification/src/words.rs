//! Splitting into words and into lines.
use vstd::prelude::*;
use vstd::std_specs::iter::IteratorSpec;
use vstd::string::StrSliceExecFns;

use crate::gstring::GString;
use crate::matching::views;
use crate::trim::{char_is_whitespace, is_whitespace};
use crate::validator::Validator;

verus! {

/// The maximal runs of non-whitespace characters of `s` from index `i` on,
/// as character index ranges; `cur` is where the run in progress started,
/// or `-1` when there is none.
pub open spec fn word_runs(s: Seq<char>, i: int, cur: int) -> Seq<(int, int)>
    decreases s.len() - i,
{
    if i >= s.len() {
        if cur >= 0 {
            seq![(cur, s.len() as int)]
        } else {
            Seq::empty()
        }
    } else if is_whitespace(s[i]) {
        (if cur >= 0 {
            seq![(cur, i)]
        } else {
            Seq::empty()
        }) + word_runs(s, i + 1, -1)
    } else {
        word_runs(s, i + 1, if cur >= 0 {
            cur
        } else {
            i
        })
    }
}

/// The lines of `s` from index `i` on, as character index ranges; `start` is
/// where the current line started. A line ends at `\n`, and a `\r` right
/// before that `\n` is not part of it; a last line without `\n` counts when
/// it is not empty.
pub open spec fn line_runs(s: Seq<char>, i: int, start: int) -> Seq<(int, int)>
    decreases s.len() - i,
{
    if i >= s.len() {
        if start < s.len() {
            seq![(start, s.len() as int)]
        } else {
            Seq::empty()
        }
    } else if s[i] == '\n' {
        let end = if i > start && s[i - 1] == '\r' {
            i - 1
        } else {
            i
        };
        seq![(start, end)] + line_runs(s, i + 1, i + 1)
    } else {
        line_runs(s, i + 1, start)
    }
}

/// The pieces of `s` at the given character index ranges.
pub open spec fn pieces(s: Seq<char>, runs: Seq<(int, int)>) -> Seq<Seq<char>> {
    runs.map_values(|r: (int, int)| s.subrange(r.0, r.1))
}

/// The words of `s`: its maximal runs of non-whitespace characters.
pub open spec fn words(s: Seq<char>) -> Seq<Seq<char>> {
    pieces(s, word_runs(s, 0, -1))
}

/// The lines of `s`.
pub open spec fn lines_of(s: Seq<char>) -> Seq<Seq<char>> {
    pieces(s, line_runs(s, 0, 0))
}

impl<V: Validator, const MIN: usize, const MAX: usize, const ASCII_ONLY: bool> GString<
    V,
    MIN,
    MAX,
    ASCII_ONLY,
> {
    /// The words of the string: the pieces between runs of whitespace,
    /// empty ones left out.
    pub fn split_whitespace(&self) -> (r: std::vec::IntoIter<&str>)
        ensures
            views(r.remaining()) == words(self@),
    {
        let s = self.as_str();
        let n = s.unicode_len();
        let mut out: Vec<&str> = Vec::new();
        let mut i: usize = 0;
        let mut cur: usize = 0;
        let mut in_word = false;
        proof {
            assert(views(out@) + pieces(s@, word_runs(s@, 0, -1)) =~= words(self@));
        }
        while i < n
            invariant
                n == s@.len(),
                s@ == self@,
                i <= n,
                in_word ==> cur < i,
                views(out@) + pieces(s@, word_runs(s@, i as int, if in_word {
                    cur as int
                } else {
                    -1
                })) == words(self@),
            decreases n - i,
        {
            let ghost c = if in_word {
                cur as int
            } else {
                -1
            };
            let ghost before = views(out@);
            if char_is_whitespace(s.get_char(i)) {
                if in_word {
                    let w = s.substring_char(cur, i);
                    out.push(w);
                    proof {
                        assert(views(out@) =~= before.push(s@.subrange(cur as int, i as int)));
                        assert(pieces(s@, word_runs(s@, i as int, c)) =~= seq![
                            s@.subrange(cur as int, i as int),
                        ] + pieces(s@, word_runs(s@, i + 1, -1)));
                    }
                } else {
                    proof {
                        assert(pieces(s@, word_runs(s@, i as int, c)) =~= pieces(
                            s@,
                            word_runs(s@, i + 1, -1),
                        ));
                    }
                }
                in_word = false;
            } else {
                if !in_word {
                    cur = i;
                    in_word = true;
                }
            }
            i += 1;
        }
        let ghost c = if in_word {
            cur as int
        } else {
            -1
        };
        let ghost before = views(out@);
        if in_word {
            let w = s.substring_char(cur, n);
            out.push(w);
            proof {
                assert(views(out@) =~= before.push(s@.subrange(cur as int, n as int)));
                assert(pieces(s@, word_runs(s@, n as int, c)) =~= seq![
                    s@.subrange(cur as int, n as int),
                ]);
            }
        } else {
            proof {
                assert(pieces(s@, word_runs(s@, n as int, c)) =~= Seq::<Seq<char>>::empty());
            }
        }
        assert(views(out@) =~= words(self@));
        out.into_iter()
    }

    /// The lines of the string, without their line endings (`\n` or
    /// `\r\n`).
    pub fn lines(&self) -> (r: std::vec::IntoIter<&str>)
        ensures
            views(r.remaining()) == lines_of(self@),
    {
        let s = self.as_str();
        let n = s.unicode_len();
        let mut out: Vec<&str> = Vec::new();
        let mut i: usize = 0;
        let mut start: usize = 0;
        proof {
            assert(views(out@) + pieces(s@, line_runs(s@, 0, 0)) =~= lines_of(self@));
        }
        while i < n
            invariant
                n == s@.len(),
                s@ == self@,
                start <= i <= n,
                views(out@) + pieces(s@, line_runs(s@, i as int, start as int)) == lines_of(
                    self@,
                ),
            decreases n - i,
        {
            let ghost before = views(out@);
            if s.get_char(i) == '\n' {
                let end = if i > start && s.get_char(i - 1) == '\r' {
                    i - 1
                } else {
                    i
                };
                let line = s.substring_char(start, end);
                out.push(line);
                proof {
                    assert(views(out@) =~= before.push(s@.subrange(start as int, end as int)));
                    assert(pieces(s@, line_runs(s@, i as int, start as int)) =~= seq![
                        s@.subrange(start as int, end as int),
                    ] + pieces(s@, line_runs(s@, i + 1, i + 1)));
                }
                start = i + 1;
            }
            i += 1;
        }
        let ghost before = views(out@);
        if start < n {
            let line = s.substring_char(start, n);
            out.push(line);
            proof {
                assert(views(out@) =~= before.push(s@.subrange(start as int, n as int)));
                assert(pieces(s@, line_runs(s@, n as int, start as int)) =~= seq![
                    s@.subrange(start as int, n as int),
                ]);
            }
        } else {
            proof {
                assert(pieces(s@, line_runs(s@, n as int, start as int)) =~= Seq::<
                    Seq<char>,
                >::empty());
            }
        }
        assert(views(out@) =~= lines_of(self@));
        out.into_iter()
    }
}

} // verus!
