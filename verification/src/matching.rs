//! All the matches of a pattern: splitting and match listing.
use vstd::prelude::*;
use vstd::std_specs::iter::IteratorSpec;
use vstd::utf8::*;

use crate::encoding::{lemma_boundary_local, lemma_match_boundaries, lemma_valid_between, matches_at};
use crate::gstring::{lemma_gstring_bounds, GString};
use crate::range::{is_slice_range, slice_chars};
use crate::search::{match_at, Pattern};
use crate::text::utf8_len;
use crate::validator::Validator;

verus! {

/// `p` is found in `h` at byte `i`: it occurs there, on a character
/// boundary. An empty pattern is found at every character boundary.
pub open spec fn found_at(h: Seq<u8>, p: Seq<u8>, i: int) -> bool {
    matches_at(h, p, i) && is_char_boundary(h, i)
}

/// How far a search moves on past a match: the pattern's length, or one
/// byte for an empty pattern.
pub open spec fn advance(p: Seq<u8>) -> int {
    if p.len() == 0 {
        1
    } else {
        p.len() as int
    }
}

/// Where the matches of `p` in `h` start, searching from byte `from` to the
/// right; matches do not overlap.
pub open spec fn match_starts(h: Seq<u8>, p: Seq<u8>, from: int) -> Seq<int>
    decreases h.len() + 1 - from,
{
    if from < 0 || from > h.len() {
        Seq::empty()
    } else if found_at(h, p, from) {
        seq![from] + match_starts(h, p, from + advance(p))
    } else {
        match_starts(h, p, from + 1)
    }
}

/// Where the matches of `p` in `h` start, searching from byte `to` to the
/// left (matches end at or before `to`); rightmost first, not overlapping.
pub open spec fn rmatch_starts(h: Seq<u8>, p: Seq<u8>, to: int) -> Seq<int>
    decreases to + 1,
{
    if to < 0 || to > h.len() {
        Seq::empty()
    } else if to - p.len() >= 0 && found_at(h, p, to - p.len()) {
        seq![to - p.len()] + rmatch_starts(h, p, to - advance(p))
    } else {
        rmatch_starts(h, p, to - 1)
    }
}

/// Where piece `i` of `h` split at matches `ms` of a pattern of length
/// `plen` starts.
pub open spec fn piece_start(ms: Seq<int>, plen: int, i: int) -> int {
    if i == 0 {
        0
    } else {
        ms[i - 1] + plen
    }
}

/// Where piece `i` of `h` (of length `hlen`) split at matches `ms` ends.
pub open spec fn piece_end(ms: Seq<int>, hlen: int, i: int) -> int {
    if i < ms.len() {
        ms[i]
    } else {
        hlen
    }
}

/// The starts of forward matches are in order, at least a pattern apart,
/// and each is a match.
pub proof fn lemma_match_starts(h: Seq<u8>, p: Seq<u8>, from: int)
    ensures
        forall|k: int|
            0 <= k < match_starts(h, p, from).len() ==> from <= #[trigger] match_starts(
                h,
                p,
                from,
            )[k] && found_at(h, p, match_starts(h, p, from)[k]),
        forall|k: int|
            0 <= k < match_starts(h, p, from).len() - 1 ==> #[trigger] match_starts(h, p, from)[k]
                + advance(p) <= match_starts(h, p, from)[k + 1],
    decreases h.len() + 1 - from,
{
    if from < 0 || from > h.len() {
    } else if found_at(h, p, from) {
        lemma_match_starts(h, p, from + advance(p));
        let rest = match_starts(h, p, from + advance(p));
        let all = match_starts(h, p, from);
        assert(all == seq![from] + rest);
        assert forall|k: int| 0 <= k < all.len() implies from <= #[trigger] all[k] && found_at(
            h,
            p,
            all[k],
        ) by {
            if k > 0 {
                assert(all[k] == rest[k - 1]);
            }
        }
        assert forall|k: int| 0 <= k < all.len() - 1 implies #[trigger] all[k] + advance(p)
            <= all[k + 1] by {
            assert(all[k + 1] == rest[k]);
            if k > 0 {
                assert(all[k] == rest[k - 1]);
            }
        }
    } else {
        lemma_match_starts(h, p, from + 1);
        assert(match_starts(h, p, from) == match_starts(h, p, from + 1));
    }
}

/// The starts of backward matches go down, at least a pattern apart, and
/// each is a match ending at or before `to`.
pub proof fn lemma_rmatch_starts(h: Seq<u8>, p: Seq<u8>, to: int)
    ensures
        forall|k: int|
            0 <= k < rmatch_starts(h, p, to).len() ==> #[trigger] rmatch_starts(h, p, to)[k]
                + p.len() <= to && found_at(h, p, rmatch_starts(h, p, to)[k]),
        forall|k: int|
            0 <= k < rmatch_starts(h, p, to).len() - 1 ==> rmatch_starts(h, p, to)[k + 1]
                + advance(p) <= #[trigger] rmatch_starts(h, p, to)[k],
    decreases to + 1,
{
    if to < 0 || to > h.len() {
    } else if to - p.len() >= 0 && found_at(h, p, to - p.len()) {
        lemma_rmatch_starts(h, p, to - advance(p));
        let rest = rmatch_starts(h, p, to - advance(p));
        let all = rmatch_starts(h, p, to);
        assert(all == seq![to - p.len()] + rest);
        assert forall|k: int| 0 <= k < all.len() implies #[trigger] all[k] + p.len() <= to
            && found_at(h, p, all[k]) by {
            if k > 0 {
                assert(all[k] == rest[k - 1]);
            }
        }
        assert forall|k: int| 0 <= k < all.len() - 1 implies all[k + 1] + advance(p)
            <= #[trigger] all[k] by {
            assert(all[k + 1] == rest[k]);
            assert(rest[k] + p.len() <= to - advance(p));
            if k > 0 {
                assert(all[k] == rest[k - 1]);
            }
        }
    } else {
        lemma_rmatch_starts(h, p, to - 1);
        assert(rmatch_starts(h, p, to) == rmatch_starts(h, p, to - 1));
    }
}

/// A match found in a valid encoding ends on a character boundary too.
proof fn lemma_found_end(h: Seq<u8>, p: Seq<u8>, i: int)
    requires
        valid_utf8(h),
        valid_utf8(p),
        found_at(h, p, i),
    ensures
        is_char_boundary(h, i + p.len()),
{
    if p.len() > 0 {
        lemma_match_boundaries(h, p, i);
    }
}

/// Whether `p` is found in `h` at byte `i`.
fn found_at_exec(h: &[u8], p: &[u8], i: usize) -> (r: bool)
    requires
        valid_utf8(h@),
    ensures
        r == found_at(h@, p@, i as int),
{
    if !match_at(h, p, i) {
        return false;
    }
    proof {
        lemma_boundary_local(h@, i as int);
    }
    i == h.len() || h[i] < 0x80 || h[i] > 0xbf
}

/// The starts of the forward matches of `p` in `h`.
fn forward_matches(h: &[u8], p: &[u8]) -> (r: Vec<usize>)
    requires
        valid_utf8(h@),
    ensures
        r@.map_values(|x: usize| x as int) == match_starts(h@, p@, 0),
{
    let mut out: Vec<usize> = Vec::new();
    let mut i: usize = 0;
    let n = h.len();
    loop
        invariant
            valid_utf8(h@),
            n == h@.len(),
            i <= h@.len(),
            out@.map_values(|x: usize| x as int) + match_starts(h@, p@, i as int) == match_starts(
                h@,
                p@,
                0,
            ),
        decreases h@.len() - i,
    {
        let ghost before = out@.map_values(|x: usize| x as int);
        if found_at_exec(h, p, i) {
            out.push(i);
            proof {
                assert(out@.map_values(|x: usize| x as int) =~= before.push(i as int));
            }
            if p.len() == 0 {
                if i == n {
                    proof {
                        assert(match_starts(h@, p@, i + 1) =~= Seq::<int>::empty());
                        assert(out@.map_values(|x: usize| x as int) + Seq::<int>::empty()
                            =~= out@.map_values(|x: usize| x as int));
                    }
                    return out;
                }
                proof {
                    assert(before + match_starts(h@, p@, i as int) =~= before.push(i as int)
                        + match_starts(h@, p@, i + 1));
                }
                i += 1;
            } else {
                proof {
                    assert(before + match_starts(h@, p@, i as int) =~= before.push(i as int)
                        + match_starts(h@, p@, i + p@.len()));
                }
                i += p.len();
            }
        } else {
            if i == n {
                proof {
                    assert(match_starts(h@, p@, i + 1) =~= Seq::<int>::empty());
                    assert(before + Seq::<int>::empty() =~= before);
                }
                return out;
            }
            i += 1;
        }
    }
}

/// The starts of the backward matches of `p` in `h`, rightmost first.
fn backward_matches(h: &[u8], p: &[u8]) -> (r: Vec<usize>)
    requires
        valid_utf8(h@),
    ensures
        r@.map_values(|x: usize| x as int) == rmatch_starts(h@, p@, h@.len() as int),
{
    let mut out: Vec<usize> = Vec::new();
    let mut to: usize = h.len();
    loop
        invariant
            valid_utf8(h@),
            to <= h@.len(),
            out@.map_values(|x: usize| x as int) + rmatch_starts(h@, p@, to as int)
                == rmatch_starts(h@, p@, h@.len() as int),
        decreases to,
    {
        let ghost before = out@.map_values(|x: usize| x as int);
        if p.len() <= to && found_at_exec(h, p, to - p.len()) {
            let at = to - p.len();
            out.push(at);
            proof {
                assert(out@.map_values(|x: usize| x as int) =~= before.push(at as int));
            }
            let step: usize = if p.len() == 0 {
                1
            } else {
                p.len()
            };
            if step > to {
                proof {
                    assert(rmatch_starts(h@, p@, to - step) =~= Seq::<int>::empty());
                    assert(before + rmatch_starts(h@, p@, to as int) =~= before.push(at as int));
                }
                return out;
            }
            proof {
                assert(before + rmatch_starts(h@, p@, to as int) =~= before.push(at as int)
                    + rmatch_starts(h@, p@, to - step));
            }
            to -= step;
        } else {
            if to == 0 {
                proof {
                    assert(rmatch_starts(h@, p@, -1) =~= Seq::<int>::empty());
                    assert(before + Seq::<int>::empty() =~= before);
                }
                return out;
            }
            to -= 1;
        }
    }
}

/// Where the matches of `p` in `s` start (byte indices), left to right.
pub open spec fn forward_starts(s: Seq<char>, p: Seq<char>) -> Seq<int> {
    match_starts(encode_utf8(s), encode_utf8(p), 0)
}

/// Where the matches of `p` in `s` start (byte indices), right to left.
pub open spec fn backward_starts(s: Seq<char>, p: Seq<char>) -> Seq<int> {
    rmatch_starts(encode_utf8(s), encode_utf8(p), utf8_len(s) as int)
}

/// The pieces of `s` between the matches of `p`, left to right.
pub open spec fn split_pieces(s: Seq<char>, p: Seq<char>) -> Seq<Seq<char>> {
    let ms = forward_starts(s, p);
    Seq::new(
        ms.len() + 1,
        |i: int|
            slice_chars(
                s,
                piece_start(ms, utf8_len(p) as int, i),
                piece_end(ms, utf8_len(s) as int, i),
            ),
    )
}

/// Each match at a start in `ms` with the text it covers.
pub open spec fn matched(s: Seq<char>, p: Seq<char>, ms: Seq<int>) -> Seq<(int, Seq<char>)> {
    Seq::new(ms.len(), |i: int| (ms[i], slice_chars(s, ms[i], ms[i] + utf8_len(p))))
}

/// The texts of a list of matches.
pub open spec fn matched_texts(m: Seq<(int, Seq<char>)>) -> Seq<Seq<char>> {
    m.map_values(|x: (int, Seq<char>)| x.1)
}

/// The views of a list of string slices.
pub open spec fn views(v: Seq<&str>) -> Seq<Seq<char>> {
    v.map_values(|x: &str| x@)
}

/// The views of a list of indexed string slices.
pub open spec fn indexed_views(v: Seq<(usize, &str)>) -> Seq<(int, Seq<char>)> {
    v.map_values(|x: (usize, &str)| (x.0 as int, x.1@))
}

impl<V: Validator, const MIN: usize, const MAX: usize, const ASCII_ONLY: bool> GString<
    V,
    MIN,
    MAX,
    ASCII_ONLY,
> {
    /// The matches at the byte indices `ms`, with their texts.
    fn collect_matches(&self, ms: &Vec<usize>, plen: usize) -> (r: Vec<(usize, &str)>)
        requires
            forall|k: int|
                0 <= k < ms@.len() ==> is_slice_range(
                    self@,
                    #[trigger] ms@[k] as int,
                    ms@[k] + plen,
                ),
        ensures
            indexed_views(r@) == Seq::new(
                ms@.len(),
                |i: int| (ms@[i] as int, slice_chars(self@, ms@[i] as int, ms@[i] + plen)),
            ),
    {
        let mut out: Vec<(usize, &str)> = Vec::new();
        let mut k: usize = 0;
        while k < ms.len()
            invariant
                k <= ms@.len(),
                out@.len() == k,
                forall|k: int|
                    0 <= k < ms@.len() ==> is_slice_range(
                        self@,
                        #[trigger] ms@[k] as int,
                        ms@[k] + plen,
                    ),
                forall|j: int|
                    0 <= j < k ==> #[trigger] out@[j].0 == ms@[j] && out@[j].1@ == slice_chars(
                        self@,
                        ms@[j] as int,
                        ms@[j] + plen,
                    ),
            decreases ms@.len() - k,
        {
            let m = ms[k];
            assert(is_slice_range(self@, ms@[k as int] as int, ms@[k as int] + plen));
            proof {
                encode_utf8_valid_utf8(self@);
                lemma_valid_between(encode_utf8(self@), m as int, m + plen);
                lemma_gstring_bounds(*self);
            }
            out.push((m, self.slice(m, m + plen)));
            k += 1;
        }
        assert(indexed_views(out@) =~= Seq::new(
            ms@.len(),
            |i: int| (ms@[i] as int, slice_chars(self@, ms@[i] as int, ms@[i] + plen)),
        ));
        out
    }
}

/// A match found in a valid encoding delimits a piece on character boundaries.
proof fn lemma_found_ranges(s: Seq<char>, p: Seq<char>, ms: Seq<usize>)
    requires
        forall|k: int|
            0 <= k < ms.len() ==> #[trigger] found_at(encode_utf8(s), encode_utf8(p), ms[k] as int),
    ensures
        forall|k: int|
            0 <= k < ms.len() ==> is_slice_range(s, #[trigger] ms[k] as int, ms[k] + utf8_len(p)),
{
    encode_utf8_valid_utf8(s);
    encode_utf8_valid_utf8(p);
    assert forall|k: int| 0 <= k < ms.len() implies is_slice_range(
        s,
        #[trigger] ms[k] as int,
        ms[k] + utf8_len(p),
    ) by {
        assert(found_at(encode_utf8(s), encode_utf8(p), ms[k] as int));
        lemma_found_end(encode_utf8(s), encode_utf8(p), ms[k] as int);
    }
}

/// The texts of a list of indexed matches.
fn texts<'a>(v: &Vec<(usize, &'a str)>) -> (r: Vec<&'a str>)
    ensures
        views(r@) == matched_texts(indexed_views(v@)),
{
    let mut out: Vec<&'a str> = Vec::new();
    let mut k: usize = 0;
    while k < v.len()
        invariant
            k <= v@.len(),
            out@.len() == k,
            forall|j: int| 0 <= j < k ==> #[trigger] out@[j] == v@[j].1,
        decreases v@.len() - k,
    {
        out.push(v[k].1);
        k += 1;
    }
    assert(views(out@) =~= matched_texts(indexed_views(v@)));
    out
}

impl<V: Validator, const MIN: usize, const MAX: usize, const ASCII_ONLY: bool> GString<
    V,
    MIN,
    MAX,
    ASCII_ONLY,
> {
    /// The matches of `pat`, left to right, each with its byte index.
    fn forward_found<P: Pattern>(&self, pat: &P) -> (r: Vec<(usize, &str)>)
        ensures
            indexed_views(r@) == matched(
                self@,
                pat.pattern_chars(),
                forward_starts(self@, pat.pattern_chars()),
            ),
    {
        let h = self.as_bytes();
        let p = pat.pattern_bytes();
        proof {
            encode_utf8_valid_utf8(self@);
        }
        let ms = forward_matches(h, p.as_slice());
        proof {
            lemma_match_starts(h@, p@, 0);
            assert forall|k: int| 0 <= k < ms@.len() implies #[trigger] found_at(
                h@,
                p@,
                ms@[k] as int,
            ) by {
                assert(ms@.map_values(|x: usize| x as int)[k] == ms@[k] as int);
            }
            lemma_found_ranges(self@, pat.pattern_chars(), ms@);
        }
        let r = self.collect_matches(&ms, p.len());
        assert(matched(self@, pat.pattern_chars(), forward_starts(self@, pat.pattern_chars()))
            =~= Seq::new(
            ms@.len(),
            |i: int| (ms@[i] as int, slice_chars(self@, ms@[i] as int, ms@[i] + p@.len())),
        ));
        r
    }

    /// The matches of `pat`, right to left, each with its byte index.
    fn backward_found<P: Pattern>(&self, pat: &P) -> (r: Vec<(usize, &str)>)
        ensures
            indexed_views(r@) == matched(
                self@,
                pat.pattern_chars(),
                backward_starts(self@, pat.pattern_chars()),
            ),
    {
        let h = self.as_bytes();
        let p = pat.pattern_bytes();
        proof {
            encode_utf8_valid_utf8(self@);
        }
        let ms = backward_matches(h, p.as_slice());
        proof {
            lemma_rmatch_starts(h@, p@, h@.len() as int);
            assert forall|k: int| 0 <= k < ms@.len() implies #[trigger] found_at(
                h@,
                p@,
                ms@[k] as int,
            ) by {
                assert(ms@.map_values(|x: usize| x as int)[k] == ms@[k] as int);
            }
            lemma_found_ranges(self@, pat.pattern_chars(), ms@);
        }
        let r = self.collect_matches(&ms, p.len());
        assert(matched(self@, pat.pattern_chars(), backward_starts(self@, pat.pattern_chars()))
            =~= Seq::new(
            ms@.len(),
            |i: int| (ms@[i] as int, slice_chars(self@, ms@[i] as int, ms@[i] + p@.len())),
        ));
        r
    }

    /// The matches of `pat`, left to right, without overlapping; an empty
    /// pattern matches at every character boundary.
    pub fn matches<P: Pattern>(&self, pat: P) -> (r: std::vec::IntoIter<&str>)
        ensures
            views(r.remaining()) == matched_texts(
                matched(self@, pat.pattern_chars(), forward_starts(self@, pat.pattern_chars())),
            ),
    {
        let found = self.forward_found(&pat);
        texts(&found).into_iter()
    }

    /// The matches of `pat`, right to left, without overlapping.
    pub fn rmatches<P: Pattern>(&self, pat: P) -> (r: std::vec::IntoIter<&str>)
        ensures
            views(r.remaining()) == matched_texts(
                matched(self@, pat.pattern_chars(), backward_starts(self@, pat.pattern_chars())),
            ),
    {
        let found = self.backward_found(&pat);
        texts(&found).into_iter()
    }

    /// The matches of `pat` with their byte indices, left to right.
    pub fn match_indices<P: Pattern>(&self, pat: P) -> (r: std::vec::IntoIter<(usize, &str)>)
        ensures
            indexed_views(r.remaining()) == matched(
                self@,
                pat.pattern_chars(),
                forward_starts(self@, pat.pattern_chars()),
            ),
    {
        self.forward_found(&pat).into_iter()
    }

    /// The matches of `pat` with their byte indices, right to left.
    pub fn rmatch_indices<P: Pattern>(&self, pat: P) -> (r: std::vec::IntoIter<(usize, &str)>)
        ensures
            indexed_views(r.remaining()) == matched(
                self@,
                pat.pattern_chars(),
                backward_starts(self@, pat.pattern_chars()),
            ),
    {
        self.backward_found(&pat).into_iter()
    }

    /// The pieces of the string between the matches of `pat`, left to
    /// right: one more piece than there are matches.
    pub fn split<P: Pattern>(&self, pat: P) -> (r: std::vec::IntoIter<&str>)
        ensures
            views(r.remaining()) == split_pieces(self@, pat.pattern_chars()),
    {
        self.split_vec(pat).into_iter()
    }

    /// The pieces of the string between the matches of `pat`, left to right.
    #[verifier::rlimit(40)]
    fn split_vec<P: Pattern>(&self, pat: P) -> (r: Vec<&str>)
        ensures
            views(r@) == split_pieces(self@, pat.pattern_chars()),
    {
        let h = self.as_bytes();
        let p = pat.pattern_bytes();
        let n = h.len();
        proof {
            encode_utf8_valid_utf8(self@);
            encode_utf8_valid_utf8(pat.pattern_chars());
            is_char_boundary_start_end_of_seq(h@);
        }
        let ms = forward_matches(h, p.as_slice());
        let ghost msi = ms@.map_values(|x: usize| x as int);
        proof {
            lemma_match_starts(h@, p@, 0);
        }
        let mut out: Vec<&str> = Vec::new();
        let mut start: usize = 0;
        let mut k: usize = 0;
        while k < ms.len()
            invariant
                valid_utf8(h@),
                valid_utf8(p@),
                n == h@.len(),
                h@ == encode_utf8(self@),
                p@ == encode_utf8(pat.pattern_chars()),
                msi == ms@.map_values(|x: usize| x as int),
                msi == match_starts(h@, p@, 0),
                forall|i: int|
                    0 <= i < msi.len() ==> 0 <= #[trigger] msi[i] && found_at(h@, p@, msi[i]),
                forall|i: int|
                    0 <= i < msi.len() - 1 ==> #[trigger] msi[i] + advance(p@) <= msi[i + 1],
                k <= ms@.len(),
                out@.len() == k,
                start == piece_start(msi, p@.len() as int, k as int),
                is_char_boundary(h@, start as int),
                k > 0 ==> start == msi[k - 1] + p@.len(),
                forall|j: int|
                    0 <= j < k ==> (#[trigger] out@[j])@ == slice_chars(
                        self@,
                        piece_start(msi, p@.len() as int, j),
                        piece_end(msi, n as int, j),
                    ),
            decreases ms@.len() - k,
        {
            let m = ms[k];
            proof {
                assert(msi[k as int] == m);
                assert(found_at(h@, p@, m as int));
                if k > 0 {
                    assert(msi[k - 1] + advance(p@) <= msi[(k - 1) + 1]);
                }
            }
            out.push(self.slice(start, m));
            proof {
                lemma_found_end(h@, p@, m as int);
            }
            start = m + p.len();
            k += 1;
        }
        proof {
            if start != 0 {
                assert(!(start < 0 || h@.len() < start));
            }
        }
        out.push(self.slice(start, n));
        assert(views(out@) =~= split_pieces(self@, pat.pattern_chars()));
        out
    }
}

} // verus!
