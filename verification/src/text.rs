//! Small, fully specified helpers over strings and characters that the rest
//! of the library builds on.

use vstd::prelude::*;

verus! {

/// Relies on `String::push` from std: appends one character to the string.
pub assume_specification[ String::push ](s: &mut String, c: char)
    ensures
        final(s)@ == old(s)@.push(c),
;

/// Whether `c` is an ASCII decimal digit.
pub open spec fn is_digit_char(c: char) -> bool {
    48 <= c as u32 && c as u32 <= 57
}

/// Whether `c` is an ASCII hexadecimal digit.
pub open spec fn is_hex_char(c: char) -> bool {
    is_digit_char(c) || (97 <= c as u32 && c as u32 <= 102) || (65 <= c as u32 && c as u32 <= 70)
}

/// The numeric value of one decimal digit.
pub open spec fn digit_val(c: char) -> int {
    c as u32 - 48
}

/// The number denoted by a sequence of decimal digits, most significant
/// first; meaningful only when every character satisfies [`is_digit_char`].
pub open spec fn dec_of(s: Seq<char>) -> int
    decreases s.len(),
{
    if s.len() == 0 {
        0
    } else {
        dec_of(s.drop_last()) * 10 + digit_val(s.last())
    }
}

/// Whether `s` is a well-formed decimal numeral: non-empty and all digits.
pub open spec fn is_dec_numeral(s: Seq<char>) -> bool {
    s.len() > 0 && (forall|i: int| 0 <= i < s.len() ==> is_digit_char(#[trigger] s[i]))
}

/// `s` with every ASCII lower-case letter replaced by its upper-case form.
pub open spec fn ascii_upper_seq(s: Seq<char>) -> Seq<char> {
    s.map_values(|c: char| ascii_upper_char(c))
}

/// The ASCII upper-case form of one character.
pub open spec fn ascii_upper_char(c: char) -> char {
    if 97 <= c as u32 && c as u32 <= 122 {
        ((c as u32 - 32) as u8) as char
    } else {
        c
    }
}

/// `s` with every occurrence of `from` replaced by `to`.
pub open spec fn replace_char_seq(s: Seq<char>, from: char, to: char) -> Seq<char> {
    s.map_values(|c: char| if c == from { to } else { c })
}

/// Whether the character views of two strings are equal.
pub fn str_eq(a: &str, b: &str) -> (r: bool)
    ensures
        r == (a@ == b@),
{
    let oa: String = a.to_owned();
    let ob: String = b.to_owned();
    oa == ob
}

/// Decimal digit test, as the pattern engine's built-in `num` class uses it.
pub fn is_num(ch: char) -> (r: bool)
    ensures
        r == is_digit_char(ch),
{
    let u = ch as u32;
    48 <= u && u <= 57
}

/// Hexadecimal digit test, as the pattern engine's built-in `hex` class uses it.
pub fn is_hex(ch: char) -> (r: bool)
    ensures
        r == is_hex_char(ch),
{
    let u = ch as u32;
    (48 <= u && u <= 57) || (97 <= u && u <= 102) || (65 <= u && u <= 70)
}

/// Reads a base-ten numeral.  Returns its value exactly when the string is a
/// non-empty run of digits whose value fits below `bound`; `None` otherwise.
pub fn parse_dec_bounded(s: &str, bound: u64) -> (r: Option<u64>)
    ensures
        match r {
            Some(v) => is_dec_numeral(s@) && v == dec_of(s@) && v <= bound,
            None => !is_dec_numeral(s@) || dec_of(s@) > bound,
        },
{
    let n = s.unicode_len();
    if n == 0 {
        return None;
    }
    let mut acc: u64 = 0;
    let mut i: usize = 0;
    while i < n
        invariant
            0 <= i <= n,
            n == s@.len(),
            is_dec_numeral(s@.subrange(0, i as int)) || i == 0,
            forall|j: int| 0 <= j < i ==> is_digit_char(#[trigger] s@[j]),
            acc == dec_of(s@.subrange(0, i as int)),
            acc <= bound,
        decreases n - i,
    {
        let c = s.get_char(i);
        let u = c as u32;
        if !(48 <= u && u <= 57) {
            proof {
                assert(!is_digit_char(s@[i as int]));
            }
            return None;
        }
        let d = (u - 48) as u64;
        if acc > bound / 10 || (acc == bound / 10 && d > bound % 10) {
            proof {
                lemma_dec_of_append(s@.subrange(0, i as int), s@[i as int]);
                assert(s@.subrange(0, i as int).push(s@[i as int]) =~= s@.subrange(
                    0,
                    i as int + 1,
                ));
                vstd::arithmetic::div_mod::lemma_fundamental_div_mod(bound as int, 10);
                assert(dec_of(s@.subrange(0, i as int + 1)) > bound);
                if is_dec_numeral(s@) {
                    lemma_dec_of_prefix_bound(s@, i as int + 1);
                }
            }
            return None;
        }
        proof {
            lemma_dec_of_append(s@.subrange(0, i as int), s@[i as int]);
            assert(s@.subrange(0, i as int).push(s@[i as int]) =~= s@.subrange(0, i as int + 1));
        }
        acc = acc * 10 + d;
        i = i + 1;
    }
    proof {
        assert(s@.subrange(0, n as int) =~= s@);
    }
    Some(acc)
}

/// Appending a digit multiplies the numeral's value by ten and adds it.
proof fn lemma_dec_of_append(s: Seq<char>, c: char)
    ensures
        dec_of(s.push(c)) == dec_of(s) * 10 + digit_val(c),
{
    assert(s.push(c).drop_last() =~= s);
    assert(s.push(c).last() == c);
}

/// A numeral is at least as large as any of its prefixes.
proof fn lemma_dec_of_prefix_bound(s: Seq<char>, k: int)
    requires
        0 <= k <= s.len(),
        forall|i: int| 0 <= i < s.len() ==> is_digit_char(#[trigger] s[i]),
    ensures
        dec_of(s.subrange(0, k)) <= dec_of(s),
    decreases s.len() - k,
{
    if k < s.len() {
        lemma_dec_of_prefix_bound(s, k + 1);
        lemma_dec_of_append(s.subrange(0, k), s[k]);
        assert(s.subrange(0, k).push(s[k]) =~= s.subrange(0, k + 1));
        assert(dec_of(s.subrange(0, k)) * 10 >= dec_of(s.subrange(0, k))) by {
            assert(dec_of(s.subrange(0, k)) >= 0) by {
                lemma_dec_of_nonneg(s.subrange(0, k));
            }
        }
    } else {
        assert(s.subrange(0, k) =~= s);
    }
}

/// A numeral over digits is never negative.
proof fn lemma_dec_of_nonneg(s: Seq<char>)
    requires
        forall|i: int| 0 <= i < s.len() ==> is_digit_char(#[trigger] s[i]),
    ensures
        dec_of(s) >= 0,
    decreases s.len(),
{
    if s.len() > 0 {
        lemma_dec_of_nonneg(s.drop_last());
    }
}

/// The characters of `s`, one by one.
pub fn str_chars(s: &str) -> (v: Vec<char>)
    ensures
        v@ == s@,
{
    let n = s.unicode_len();
    let mut v: Vec<char> = Vec::new();
    let mut i: usize = 0;
    while i < n
        invariant
            0 <= i <= n,
            n == s@.len(),
            v@ == s@.subrange(0, i as int),
        decreases n - i,
    {
        v.push(s.get_char(i));
        proof {
            assert(v@ =~= s@.subrange(0, i as int + 1));
        }
        i = i + 1;
    }
    proof {
        assert(s@.subrange(0, n as int) =~= s@);
    }
    v
}

/// `s` with ASCII letters upper-cased.
pub fn ascii_uppercase(s: &str) -> (r: String)
    ensures
        r@ == ascii_upper_seq(s@),
{
    let n = s.unicode_len();
    let mut out = String::new();
    let mut i: usize = 0;
    while i < n
        invariant
            0 <= i <= n,
            n == s@.len(),
            out@ == ascii_upper_seq(s@.subrange(0, i as int)),
        decreases n - i,
    {
        let c = s.get_char(i);
        let u = c as u32;
        let up: char = if 97 <= u && u <= 122 {
            ((u - 32) as u8) as char
        } else {
            c
        };
        out.push(up);
        proof {
            assert(up == ascii_upper_char(s@[i as int]));
            assert(ascii_upper_seq(s@.subrange(0, i as int)).push(up) =~= ascii_upper_seq(
                s@.subrange(0, i as int + 1),
            ));
        }
        i = i + 1;
    }
    proof {
        assert(s@.subrange(0, n as int) =~= s@);
    }
    out
}

/// `s` with every occurrence of `from` replaced by `to`.
pub fn replace_all(s: &str, from: char, to: char) -> (r: String)
    ensures
        r@ == replace_char_seq(s@, from, to),
{
    let n = s.unicode_len();
    let mut out = String::new();
    let mut i: usize = 0;
    while i < n
        invariant
            0 <= i <= n,
            n == s@.len(),
            out@ == replace_char_seq(s@.subrange(0, i as int), from, to),
        decreases n - i,
    {
        let c = s.get_char(i);
        let mapped: char = if c == from {
            to
        } else {
            c
        };
        out.push(mapped);
        proof {
            assert(replace_char_seq(s@.subrange(0, i as int), from, to).push(mapped)
                =~= replace_char_seq(s@.subrange(0, i as int + 1), from, to));
        }
        i = i + 1;
    }
    proof {
        assert(s@.subrange(0, n as int) =~= s@);
    }
    out
}

} // verus!
