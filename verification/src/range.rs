//! Parsing of an HTTP `Range` header against an entity of a known size.
//!
//! `bytes=0-99, 200-` names closed or open-ended spans; `-500` names a
//! suffix.  Spans are clipped to the entity; a span starting past the end is
//! dropped, and the whole header is refused when it is malformed or when
//! every span starts past the end.

use vstd::prelude::*;

use crate::text::{dec_of, is_dec_numeral, parse_dec_bounded, str_eq};
use crate::views::parts_view;

verus! {

broadcast use {crate::views::lemma_parts_view_len, crate::views::lemma_parts_view_index};

/// A parse failure: the header names no acceptable range.
#[derive(Debug, Clone, Copy, PartialEq, Eq, Structural)]
pub enum ParseError {
    /// The `Range` header is malformed or wholly out of bounds.
    InvalidRange,
}

/// One span of bytes: a start offset and a length.
#[derive(Clone, Debug, Copy, PartialEq, Eq, Structural)]
pub struct HttpRange {
    /// The first byte's offset.
    pub start: u64,
    /// How many bytes the span covers.
    pub length: u64,
}

/// The spans of a column, as pairs.
pub open spec fn ranges_view(v: Seq<HttpRange>) -> Seq<(u64, u64)> {
    v.map_values(|h: HttpRange| (h.start, h.length))
}

/// Adding a span adds its pair.
pub broadcast proof fn lemma_ranges_view_push(v: Seq<HttpRange>, h: HttpRange)
    ensures
        (#[trigger] ranges_view(v.push(h))) == ranges_view(v).push((h.start, h.length)),
{
    assert(ranges_view(v.push(h)) =~= ranges_view(v).push((h.start, h.length)));
}

/// Whether a character is insignificant blank space in a header.
pub open spec fn blank(c: char) -> bool {
    c == ' ' || c == '\t'
}

/// `s` without leading blanks.
pub open spec fn trim_start_of(s: Seq<char>) -> Seq<char>
    decreases s.len(),
{
    if s.len() > 0 && blank(s[0]) {
        trim_start_of(s.subrange(1, s.len() as int))
    } else {
        s
    }
}

/// `s` without trailing blanks.
pub open spec fn trim_end_of(s: Seq<char>) -> Seq<char>
    decreases s.len(),
{
    if s.len() > 0 && blank(s.last()) {
        trim_end_of(s.drop_last())
    } else {
        s
    }
}

/// `s` without leading or trailing blanks.
pub open spec fn trim_of(s: Seq<char>) -> Seq<char> {
    trim_end_of(trim_start_of(s))
}

/// One scanning step of separator splitting: the separator closes the piece
/// being built — an empty piece is kept — and any other character extends
/// it.
pub open spec fn sep_step(acc: (Seq<Seq<char>>, Seq<char>), c: char, sep: char) -> (
    Seq<Seq<char>>,
    Seq<char>,
) {
    if c == sep {
        (acc.0.push(acc.1), Seq::empty())
    } else {
        (acc.0, acc.1.push(c))
    }
}

/// The finished pieces and the piece still being built after scanning `s`.
pub open spec fn sep_scan(s: Seq<char>, sep: char) -> (Seq<Seq<char>>, Seq<char>)
    decreases s.len(),
{
    if s.len() == 0 {
        (Seq::empty(), Seq::empty())
    } else {
        sep_step(sep_scan(s.drop_last(), sep), s.last(), sep)
    }
}

/// The pieces of `s` between separators, empty pieces kept: one more piece
/// than there are separators.
pub open spec fn split_sep(s: Seq<char>, sep: char) -> Seq<Seq<char>> {
    sep_scan(s, sep).0.push(sep_scan(s, sep).1)
}

/// A numeral's value, when it is a plain run of digits denoting a number a
/// signed machine word can hold.
pub open spec fn numeral_val(s: Seq<char>) -> Option<int> {
    if is_dec_numeral(s) && dec_of(s) <= i64::MAX {
        Some(dec_of(s))
    } else {
        None
    }
}

/// What one comma-separated item of the header names: a span, nothing (a
/// span starting past the entity's end), or a malformation.
///
/// `-k` is the suffix of at most `k` bytes.  `a-` runs from `a` to the end.
/// `a-b` runs from `a` through `b`, clipped to the entity; `a` past `b` is
/// malformed.  Text after a second dash is ignored.
pub open spec fn item_range(ra: Seq<char>, size: u64) -> Result<Option<(u64, u64)>, ()> {
    let pieces = split_sep(ra, '-');
    if pieces.len() < 2 {
        Err(())
    } else {
        let start_str = trim_of(pieces[0]);
        let end_str = trim_of(pieces[1]);
        if start_str.len() == 0 {
            match numeral_val(end_str) {
                None => Err(()),
                Some(v) => {
                    let length: int = if v > size {
                        size as int
                    } else {
                        v
                    };
                    Ok(Some(((size - length) as u64, length as u64)))
                },
            }
        } else {
            match numeral_val(start_str) {
                None => Err(()),
                Some(start) => if start >= size {
                    Ok(None)
                } else if end_str.len() == 0 {
                    Ok(Some((start as u64, (size - start) as u64)))
                } else {
                    match numeral_val(end_str) {
                        None => Err(()),
                        Some(end) => if start > end {
                            Err(())
                        } else {
                            let e: int = if end >= size {
                                size - 1
                            } else {
                                end
                            };
                            Ok(Some((start as u64, (e - start + 1) as u64)))
                        },
                    }
                },
            }
        }
    }
}

/// Folds the header's items from index `i` on: blank items are skipped, a
/// malformed one refuses the whole header, and the flag records whether any
/// span was dropped for starting past the end.
pub open spec fn ranges_fold(
    pieces: Seq<Seq<char>>,
    size: u64,
    i: int,
    acc: Seq<(u64, u64)>,
    none_seen: bool,
) -> Result<(Seq<(u64, u64)>, bool), ()>
    decreases pieces.len() - i,
{
    if i < 0 || i >= pieces.len() {
        Ok((acc, none_seen))
    } else {
        let t = trim_of(pieces[i]);
        if t.len() == 0 {
            ranges_fold(pieces, size, i + 1, acc, none_seen)
        } else {
            match item_range(t, size) {
                Err(_) => Err(()),
                Ok(None) => ranges_fold(pieces, size, i + 1, acc, true),
                Ok(Some(r)) => ranges_fold(pieces, size, i + 1, acc.push(r), none_seen),
            }
        }
    }
}

/// What the whole header names: nothing for an empty header; otherwise the
/// spans of every well-formed item after the `bytes=` prefix, in order; a
/// refusal when the prefix is missing, an item is malformed, or every span
/// started past the entity's end.
pub open spec fn ranges_of(header: Seq<char>, size: u64) -> Result<Seq<(u64, u64)>, ()> {
    if header.len() == 0 {
        Ok(Seq::empty())
    } else if !("bytes="@.is_prefix_of(header)) {
        Err(())
    } else {
        match ranges_fold(
            split_sep(header.skip(6), ','),
            size,
            0,
            Seq::empty(),
            false,
        ) {
            Err(_) => Err(()),
            Ok((rs, none_seen)) => if none_seen && rs.len() == 0 {
                Err(())
            } else {
                Ok(rs)
            },
        }
    }
}

/// A run of blanks ends where the first non-blank stands.
proof fn lemma_trim_start(s: Seq<char>, i: int)
    requires
        0 <= i <= s.len(),
        forall|k: int| 0 <= k < i ==> blank(#[trigger] s[k]),
        i < s.len() ==> !blank(s[i]),
    ensures
        trim_start_of(s) == s.subrange(i, s.len() as int),
    decreases i,
{
    if i == 0 {
        assert(s.subrange(0, s.len() as int) =~= s);
    } else {
        let s1 = s.subrange(1, s.len() as int);
        lemma_trim_start(s1, i - 1);
        assert(s1.subrange(i - 1, s1.len() as int) =~= s.subrange(i, s.len() as int));
    }
}

/// A trailing run of blanks begins where the last non-blank ends.
proof fn lemma_trim_end(s: Seq<char>, j: int)
    requires
        0 <= j <= s.len(),
        forall|k: int| j <= k < s.len() ==> blank(#[trigger] s[k]),
        j > 0 ==> !blank(s[j - 1]),
    ensures
        trim_end_of(s) == s.subrange(0, j),
    decreases s.len() - j,
{
    if j == s.len() {
        assert(s.subrange(0, j) =~= s);
    } else {
        lemma_trim_end(s.drop_last(), j);
        assert(s.drop_last().subrange(0, j) =~= s.subrange(0, j));
    }
}

/// Whether the character at `i` is blank.
fn blank_at(s: &str, i: usize) -> (r: bool)
    requires
        i < s@.len(),
    ensures
        r == blank(s@[i as int]),
{
    let c = s.get_char(i);
    c == ' ' || c == '\t'
}

/// `s` without leading or trailing blanks.
pub fn trim(s: &str) -> (r: String)
    ensures
        r@ == trim_of(s@),
{
    let n = s.unicode_len();
    let mut i: usize = 0;
    while i < n && blank_at(s, i)
        invariant
            0 <= i <= n,
            n == s@.len(),
            forall|k: int| 0 <= k < i ==> blank(#[trigger] s@[k]),
        decreases n - i,
    {
        i = i + 1;
    }
    if i == n {
        proof {
            lemma_trim_start(s@, n as int);
            assert(s@.subrange(n as int, n as int) =~= Seq::<char>::empty());
            assert(trim_end_of(Seq::<char>::empty()) =~= Seq::<char>::empty());
        }
        return String::new();
    }
    let mut j: usize = n;
    while j > i + 1 && blank_at(s, j - 1)
        invariant
            i < j <= n,
            n == s@.len(),
            forall|k: int| j <= k < n ==> blank(#[trigger] s@[k]),
        decreases j,
    {
        j = j - 1;
    }
    proof {
        lemma_trim_start(s@, i as int);
        let s1 = s@.subrange(i as int, n as int);
        assert(!blank(s1[j - i - 1]));
        assert(forall|k: int| j - i <= k < s1.len() ==> blank(#[trigger] s1[k]));
        lemma_trim_end(s1, j - i);
        assert(s1.subrange(0, j - i) =~= s@.subrange(i as int, j as int));
    }
    s.substring_char(i, j).to_owned()
}

/// The pieces of `s` between occurrences of `sep`, empty pieces kept.
pub fn split_sep_exec(s: &str, sep: char) -> (v: Vec<String>)
    ensures
        parts_view(v@) == split_sep(s@, sep),
{
    let n = s.unicode_len();
    let mut v: Vec<String> = Vec::new();
    let mut cur = String::new();
    let mut i: usize = 0;
    while i < n
        invariant
            0 <= i <= n,
            n == s@.len(),
            (parts_view(v@), cur@) == sep_scan(s@.subrange(0, i as int), sep),
        decreases n - i,
    {
        let c = s.get_char(i);
        proof {
            assert(s@.subrange(0, i as int + 1).drop_last() =~= s@.subrange(0, i as int));
            assert(s@.subrange(0, i as int + 1).last() == s@[i as int]);
        }
        if c == sep {
            let ghost old_parts = parts_view(v@);
            v.push(cur);
            cur = String::new();
            proof {
                assert(parts_view(v@) =~= old_parts.push(
                    sep_scan(s@.subrange(0, i as int), sep).1,
                ));
            }
        } else {
            cur.push(c);
        }
        i = i + 1;
    }
    proof {
        assert(s@.subrange(0, n as int) =~= s@);
    }
    let ghost old_parts = parts_view(v@);
    v.push(cur);
    proof {
        assert(parts_view(v@) =~= old_parts.push(sep_scan(s@, sep).1));
    }
    v
}

impl HttpRange {
    /// Reads a `Range` header against an entity `size` bytes long; see
    /// [`ranges_of`].  The spans come back in the header's order; a refused
    /// header reports exactly [`ParseError::InvalidRange`].
    pub fn parse(header: &str, size: u64) -> (r: Result<Vec<HttpRange>, ParseError>)
        ensures
            match r {
                Ok(v) => ranges_of(header@, size) == Ok::<Seq<(u64, u64)>, ()>(ranges_view(v@)),
                Err(e) => ranges_of(header@, size) is Err && e == ParseError::InvalidRange,
            },
    {
        broadcast use lemma_ranges_view_push;

        let n = header.unicode_len();
        if n == 0 {
            let empty: Vec<HttpRange> = Vec::new();
            proof {
                assert(ranges_view(empty@) =~= Seq::<(u64, u64)>::empty());
            }
            return Ok(empty);
        }
        proof {
            reveal_strlit("bytes=");
        }
        if n < 6 {
            proof {
                assert(!("bytes="@.is_prefix_of(header@)));
            }
            return Err(ParseError::InvalidRange);
        }
        let prefix = header.substring_char(0, 6);
        if !str_eq(prefix, "bytes=") {
            proof {
                assert(!("bytes="@.is_prefix_of(header@)));
            }
            return Err(ParseError::InvalidRange);
        }
        proof {
            assert("bytes="@.is_prefix_of(header@));
        }
        let rest = header.substring_char(6, n);
        proof {
            assert(rest@ =~= header@.skip(6));
        }
        let pieces = split_sep_exec(rest, ',');
        let ghost pv = split_sep(header@.skip(6), ',');
        let np = pieces.len();
        let mut ranges: Vec<HttpRange> = Vec::new();
        let mut none_seen = false;
        let mut i: usize = 0;
        proof {
            assert(ranges_view(ranges@) =~= Seq::<(u64, u64)>::empty());
        }
        while i < np
            invariant
                header@.len() > 0,
                "bytes="@.is_prefix_of(header@),
                pv == split_sep(header@.skip(6), ','),
                parts_view(pieces@) == pv,
                0 <= i <= np,
                np == pieces@.len(),
                ranges_fold(pv, size, 0, Seq::empty(), false) == ranges_fold(
                    pv,
                    size,
                    i as int,
                    ranges_view(ranges@),
                    none_seen,
                ),
            decreases np - i,
        {
            proof {
                assert(parts_view(pieces@)[i as int] == pieces@[i as int]@);
            }
            let ghost rv0 = ranges_view(ranges@);
            let ghost ns0 = none_seen;
            let t = trim(pieces[i].as_str());
            let tn = t.as_str().unicode_len();
            if tn > 0 {
                match Self::parse_item(t.as_str(), size) {
                    Err(_) => {
                        proof {
                            assert(ranges_fold(pv, size, i as int, rv0, ns0) is Err);
                        }
                        return Err(ParseError::InvalidRange);
                    },
                    Ok(None) => {
                        none_seen = true;
                        proof {
                            assert(ranges_fold(pv, size, i as int, rv0, ns0) == ranges_fold(
                                pv,
                                size,
                                i as int + 1,
                                rv0,
                                true,
                            ));
                        }
                    },
                    Ok(Some(h)) => {
                        let ghost rseq = ranges@;
                        ranges.push(h);
                        proof {
                            lemma_ranges_view_push(rseq, h);
                            assert(ranges_fold(pv, size, i as int, rv0, ns0) == ranges_fold(
                                pv,
                                size,
                                i as int + 1,
                                rv0.push((h.start, h.length)),
                                ns0,
                            ));
                        }
                    },
                }
            } else {
                proof {
                    assert(ranges_fold(pv, size, i as int, rv0, ns0) == ranges_fold(
                        pv,
                        size,
                        i as int + 1,
                        rv0,
                        ns0,
                    ));
                }
            }
            i = i + 1;
        }
        if none_seen && ranges.len() == 0 {
            proof {
                assert(ranges_view(ranges@) =~= Seq::<(u64, u64)>::empty());
            }
            return Err(ParseError::InvalidRange);
        }
        Ok(ranges)
    }

    /// Reads one non-blank item of the header; see [`item_range`].
    fn parse_item(ra: &str, size: u64) -> (r: Result<Option<HttpRange>, ()>)
        ensures
            match r {
                Ok(Some(h)) => item_range(ra@, size) == Ok::<Option<(u64, u64)>, ()>(
                    Some((h.start, h.length)),
                ),
                Ok(None) => item_range(ra@, size) == Ok::<Option<(u64, u64)>, ()>(None),
                Err(_) => item_range(ra@, size) is Err,
            },
    {
        let pieces = split_sep_exec(ra, '-');
        if pieces.len() < 2 {
            return Err(());
        }
        let start_str = trim(pieces[0].as_str());
        let end_str = trim(pieces[1].as_str());
        let bound: u64 = i64::MAX as u64;
        if start_str.as_str().unicode_len() == 0 {
            match parse_dec_bounded(end_str.as_str(), bound) {
                None => Err(()),
                Some(v) => {
                    let length: u64 = if v > size {
                        size
                    } else {
                        v
                    };
                    Ok(Some(HttpRange { start: size - length, length }))
                },
            }
        } else {
            match parse_dec_bounded(start_str.as_str(), bound) {
                None => Err(()),
                Some(start) => {
                    if start >= size {
                        Ok(None)
                    } else if end_str.as_str().unicode_len() == 0 {
                        Ok(Some(HttpRange { start, length: size - start }))
                    } else {
                        match parse_dec_bounded(end_str.as_str(), bound) {
                            None => Err(()),
                            Some(end) => {
                                if start > end {
                                    Err(())
                                } else {
                                    let e: u64 = if end >= size {
                                        size - 1
                                    } else {
                                        end
                                    };
                                    Ok(Some(HttpRange { start, length: e - start + 1 }))
                                }
                            },
                        }
                    }
                },
            }
        }
    }
}

} // verus!
