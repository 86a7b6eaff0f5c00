//! Executable text operations on character slices, each proved against its
//! specification in [`crate::text`].

use crate::text::{
    all_digits, decimal, decimal_value, digit_char, digit_value,
    find, is_digit, lemma_find_from, lemma_find_from_none,
    lemma_find_from_unique, lines, occurs_at, parse_u64, seqs_of, split, split_whitespace,
    starts_with, ends_with, strip_cr, strip_leading, strip_trailing, trim, trim_matches, word_len,
    CharClass,
};
use vstd::prelude::*;
use vstd::slice::{slice_subrange, slice_to_vec};

verus! {

/// `String::push` appends one character.
pub assume_specification[ String::push ](s: &mut String, c: char)
    ensures
        final(s)@ == old(s)@.push(c),
;

/// The characters of `s`, in order.
pub fn chars_of(s: &str) -> (v: Vec<char>)
    ensures
        v@ == s@,
{
    let mut v: Vec<char> = Vec::new();
    for c in it: s.chars()
        invariant
            it.seq() == s@,
            v@ == it.seq().take(it.index()),
    {
        v.push(c);
        proof {
            assert(it.seq().take(it.index() + 1) =~= it.seq().take(it.index()).push(c));
        }
    }
    proof {
        assert(s@.take(s@.len() as int) =~= s@);
    }
    v
}

/// The string made of the characters of `v`, in order.
pub fn string_of(v: &[char]) -> (s: String)
    ensures
        s@ == v@,
{
    let mut s = String::new();
    let n = v.len();
    let mut i: usize = 0;
    while i < n
        invariant
            n == v@.len(),
            i <= n,
            s@ == v@.take(i as int),
        decreases n - i,
    {
        s.push(v[i]);
        i += 1;
        proof {
            assert(v@.take(i as int) =~= v@.take(i - 1).push(v@[i - 1]));
        }
    }
    proof {
        assert(v@.take(n as int) =~= v@);
    }
    s
}

/// Whether two texts are equal.
pub fn chars_eq(a: &[char], b: &[char]) -> (r: bool)
    ensures
        r == (a@ == b@),
{
    if a.len() != b.len() {
        return false;
    }
    let n = a.len();
    let mut i: usize = 0;
    while i < n
        invariant
            n == a@.len(),
            n == b@.len(),
            i <= n,
            forall|k: int| 0 <= k < i ==> a@[k] == b@[k],
        decreases n - i,
    {
        if a[i] != b[i] {
            return false;
        }
        i += 1;
    }
    proof {
        assert(a@ =~= b@);
    }
    true
}

/// Whether `needle` stands in `hay` at position `i`.
pub fn chars_match_at(hay: &[char], needle: &[char], i: usize) -> (r: bool)
    ensures
        r == occurs_at(hay@, needle@, i as int),
{
    let n = needle.len();
    let h = hay.len();
    if n > h || i > h - n {
        return false;
    }
    let mut j: usize = 0;
    while j < n
        invariant
            n == needle@.len(),
            h == hay@.len(),
            i + n <= hay@.len(),
            j <= n,
            forall|k: int| 0 <= k < j ==> hay@[i + k] == needle@[k],
        decreases n - j,
    {
        if hay[i + j] != needle[j] {
            proof {
                assert(hay@.subrange(i as int, i + n)[j as int] == hay@[i + j]);
            }
            return false;
        }
        j += 1;
    }
    proof {
        assert(hay@.subrange(i as int, i + n) =~= needle@);
    }
    true
}

/// Position of the first occurrence of `needle` in `hay`.
pub fn find_chars(hay: &[char], needle: &[char]) -> (r: Option<usize>)
    ensures
        match r {
            Some(i) => find(hay@, needle@) == Some(i as int) && i + needle@.len() <= hay@.len(),
            None => find(hay@, needle@) is None,
        },
{
    let n = needle.len();
    let h = hay.len();
    if n > h {
        proof {
            lemma_find_from(hay@, needle@, 0);
        }
        return None;
    }
    if n == 0 {
        proof {
            assert(hay@.subrange(0, 0) =~= needle@);
        }
        return Some(0);
    }
    let mut i: usize = 0;
    while i <= h - n
        invariant
            n == needle@.len(),
            h == hay@.len(),
            0 < n <= h,
            i <= h - n + 1,
            forall|j: int| 0 <= j < i ==> !occurs_at(hay@, needle@, j),
        decreases h - n + 1 - i,
    {
        if chars_match_at(hay, needle, i) {
            proof {
                lemma_find_from_unique(hay@, needle@, 0, i as int);
            }
            return Some(i);
        }
        i += 1;
    }
    proof {
        lemma_find_from_none(hay@, needle@, 0);
    }
    None
}

/// Whether `hay` begins with `prefix`.
pub fn starts_with_chars(hay: &[char], prefix: &[char]) -> (r: bool)
    ensures
        r == starts_with(hay@, prefix@),
{
    if prefix.len() > hay.len() {
        return false;
    }
    chars_match_at(hay, prefix, 0)
}

/// Whether `hay` ends with `suffix`.
pub fn ends_with_chars(hay: &[char], suffix: &[char]) -> (r: bool)
    ensures
        r == ends_with(hay@, suffix@),
{
    if suffix.len() > hay.len() {
        return false;
    }
    chars_match_at(hay, suffix, hay.len() - suffix.len())
}

/// `s` without its longest prefix of characters of `class`.
pub fn strip_leading_chars<'a>(s: &'a [char], class: CharClass) -> (r: &'a [char])
    ensures
        r@ == strip_leading(s@, class),
{
    let n = s.len();
    let mut i: usize = 0;
    proof {
        assert(s@.skip(0) =~= s@);
    }
    while i < n && class.test(s[i])
        invariant
            n == s@.len(),
            i <= n,
            strip_leading(s@, class) == strip_leading(s@.skip(i as int), class),
        decreases n - i,
    {
        proof {
            assert(s@.skip(i as int).drop_first() =~= s@.skip(i + 1));
        }
        i += 1;
    }
    proof {
        assert(s@.skip(0) =~= s@);
        assert(s@.subrange(i as int, n as int) =~= s@.skip(i as int));
    }
    slice_subrange(s, i, n)
}

/// `s` without its longest suffix of characters of `class`.
pub fn strip_trailing_chars<'a>(s: &'a [char], class: CharClass) -> (r: &'a [char])
    ensures
        r@ == strip_trailing(s@, class),
{
    let n = s.len();
    let mut i: usize = n;
    proof {
        assert(s@.take(n as int) =~= s@);
    }
    while i > 0 && class.test(s[i - 1])
        invariant
            n == s@.len(),
            i <= n,
            strip_trailing(s@, class) == strip_trailing(s@.take(i as int), class),
        decreases i,
    {
        proof {
            assert(s@.take(i as int).drop_last() =~= s@.take(i - 1));
        }
        i -= 1;
    }
    proof {
        assert(s@.take(n as int) =~= s@);
        assert(s@.subrange(0, i as int) =~= s@.take(i as int));
    }
    slice_subrange(s, 0, i)
}

/// `s` without leading and trailing whitespace.
pub fn trim_chars<'a>(s: &'a [char]) -> (r: &'a [char])
    ensures
        r@ == trim(s@),
{
    strip_trailing_chars(strip_leading_chars(s, CharClass::Whitespace), CharClass::Whitespace)
}

/// `s` without leading and trailing occurrences of `c`.
pub fn trim_matches_chars<'a>(s: &'a [char], c: char) -> (r: &'a [char])
    ensures
        r@ == trim_matches(s@, c),
{
    strip_trailing_chars(strip_leading_chars(s, CharClass::Only(c)), CharClass::Only(c))
}

/// The pieces of `s` between successive occurrences of `d`. With an empty `d` the
/// text is its own single piece.
pub fn split_chars(s: &[char], d: &[char]) -> (parts: Vec<Vec<char>>)
    ensures
        seqs_of(parts@) == split(s@, d@),
        parts@.len() >= 1,
{
    let mut parts: Vec<Vec<char>> = Vec::new();
    if d.len() == 0 {
        parts.push(slice_to_vec(s));
        proof {
            assert(seqs_of(parts@) =~= seq![s@]);
        }
        return parts;
    }
    let mut rest: &[char] = s;
    loop
        invariant
            d@.len() > 0,
            split(s@, d@) == seqs_of(parts@) + split(rest@, d@),
        decreases rest@.len(),
    {
        let ghost before = parts@;
        match find_chars(rest, d) {
            Some(i) => {
                let end = rest.len();
                let piece = slice_to_vec(slice_subrange(rest, 0, i));
                let next = slice_subrange(rest, i + d.len(), end);
                proof {
                    assert(rest@.subrange(0, i as int) =~= rest@.take(i as int));
                    assert(next@ =~= rest@.skip(i + d@.len()));
                }
                parts.push(piece);
                proof {
                    assert(seqs_of(parts@) =~= seqs_of(before) + seq![rest@.take(i as int)]);
                    assert(split(s@, d@) =~= seqs_of(parts@) + split(next@, d@));
                }
                rest = next;
            },
            None => {
                let piece = slice_to_vec(rest);
                parts.push(piece);
                proof {
                    assert(seqs_of(parts@) =~= seqs_of(before) + seq![rest@]);
                }
                return parts;
            },
        }
    }
}

/// The length of the longest prefix of `s` without whitespace.
pub fn word_len_chars(s: &[char]) -> (k: usize)
    ensures
        k == word_len(s@),
        k <= s@.len(),
{
    let n = s.len();
    let mut i: usize = 0;
    proof {
        assert(s@.skip(0) =~= s@);
    }
    while i < n && !CharClass::Whitespace.test(s[i])
        invariant
            n == s@.len(),
            i <= n,
            word_len(s@) == i + word_len(s@.skip(i as int)),
        decreases n - i,
    {
        proof {
            assert(s@.skip(i as int).drop_first() =~= s@.skip(i + 1));
        }
        i += 1;
    }
    proof {
        assert(s@.skip(0) =~= s@);
    }
    i
}

/// The maximal runs of non-whitespace characters of `s`, in order.
pub fn split_whitespace_chars(s: &[char]) -> (parts: Vec<Vec<char>>)
    ensures
        seqs_of(parts@) == split_whitespace(s@),
{
    let mut parts: Vec<Vec<char>> = Vec::new();
    let mut rest: &[char] = s;
    loop
        invariant
            split_whitespace(s@) == seqs_of(parts@) + split_whitespace(rest@),
        decreases rest@.len(),
    {
        let ghost before = parts@;
        let t = strip_leading_chars(rest, CharClass::Whitespace);
        let n = word_len_chars(t);
        proof {
            crate::text::lemma_strip_leading_len(rest@, CharClass::Whitespace);
        }
        if n == 0 {
            proof {
                assert(seqs_of(parts@) + Seq::<Seq<char>>::empty() =~= seqs_of(parts@));
            }
            return parts;
        }
        let piece = slice_to_vec(slice_subrange(t, 0, n));
        let next = slice_subrange(t, n, t.len());
        proof {
            assert(t@.subrange(0, n as int) =~= t@.take(n as int));
            assert(next@ =~= t@.skip(n as int));
        }
        parts.push(piece);
        proof {
            assert(seqs_of(parts@) =~= seqs_of(before) + seq![t@.take(n as int)]);
            assert(split_whitespace(s@) =~= seqs_of(parts@) + split_whitespace(next@));
        }
        rest = next;
    }
}

/// The lines of `s`.
pub fn lines_chars(s: &[char]) -> (parts: Vec<Vec<char>>)
    ensures
        seqs_of(parts@) == lines(s@),
{
    let mut parts: Vec<Vec<char>> = Vec::new();
    let mut rest: &[char] = s;
    let lf: [char; 1] = ['\n'];
    loop
        invariant
            lf@ == seq!['\n'],
            lines(s@) == seqs_of(parts@) + lines(rest@),
        decreases rest@.len(),
    {
        let ghost before = parts@;
        if rest.len() == 0 {
            proof {
                assert(seqs_of(parts@) + Seq::<Seq<char>>::empty() =~= seqs_of(parts@));
            }
            return parts;
        }
        match find_chars(rest, lf.as_slice()) {
            Some(i) => {
                let line = slice_subrange(rest, 0, i);
                let line = if i > 0 && line[i - 1] == '\r' {
                    slice_subrange(line, 0, i - 1)
                } else {
                    line
                };
                let next = slice_subrange(rest, i + 1, rest.len());
                proof {
                    assert(rest@.subrange(0, i as int) =~= rest@.take(i as int));
                    assert(line@ =~= strip_cr(rest@.take(i as int)));
                    assert(next@ =~= rest@.skip(i + 1));
                }
                parts.push(slice_to_vec(line));
                proof {
                    assert(seqs_of(parts@) =~= seqs_of(before) + seq![strip_cr(rest@.take(i as int))]);
                    assert(lines(s@) =~= seqs_of(parts@) + lines(next@));
                }
                rest = next;
            },
            None => {
                parts.push(slice_to_vec(rest));
                proof {
                    assert(seqs_of(parts@) =~= seqs_of(before) + seq![rest@]);
                }
                return parts;
            },
        }
    }
}

} // verus!

verus! {

/// A prefix of a digit string writes a number no larger than the whole string.
pub proof fn lemma_decimal_value_prefix(s: Seq<char>, k: int)
    requires
        0 <= k <= s.len(),
    ensures
        decimal_value(s.take(k)) <= decimal_value(s),
    decreases s.len() - k,
{
    if k == s.len() {
        assert(s.take(k) =~= s);
    } else {
        lemma_decimal_value_prefix(s.drop_last(), k);
        assert(s.drop_last().take(k) =~= s.take(k));
    }
}

/// The number written by `s`, if it is one.
pub fn parse_u64_chars(s: &[char]) -> (r: Option<u64>)
    ensures
        r == parse_u64(s@),
{
    let n = s.len();
    let start: usize = if n > 0 && s[0] == '+' {
        1
    } else {
        0
    };
    let ghost digits = s@.skip(start as int);
    proof {
        assert(s@.skip(0) =~= s@);
        if n > 0 {
            assert(s@.skip(1) =~= s@.drop_first());
        }
    }
    if start == n {
        return None;
    }
    let mut acc: u64 = 0;
    let mut i: usize = start;
    proof {
        assert(digits.take(0) =~= Seq::<char>::empty());
    }
    while i < n
        invariant
            n == s@.len(),
            start <= i <= n,
            digits == s@.skip(start as int),
            digits == if s@.len() > 0 && s@[0] == '+' {
                s@.drop_first()
            } else {
                s@
            },
            all_digits(digits.take(i - start)),
            acc == decimal_value(digits.take(i - start)),
        decreases n - i,
    {
        let c = s[i];
        if !('0' <= c && c <= '9') {
            proof {
                assert(!is_digit(digits[i - start]));
            }
            return None;
        }
        let d: u64 = (c as u32 - '0' as u32) as u64;
        proof {
            assert(digits.take(i + 1 - start).drop_last() =~= digits.take(i - start));
            assert(digits.take(i + 1 - start).last() == c);
            assert(d == digit_value(c));
        }
        if acc > (u64::MAX - d) / 10 {
            proof {
                lemma_decimal_value_prefix(digits, i + 1 - start);
            }
            return None;
        }
        acc = acc * 10 + d;
        i += 1;
    }
    proof {
        assert(digits.take(n - start) =~= digits);
    }
    Some(acc)
}

/// The character for a digit below ten.
fn digit_to_char(d: u64) -> (c: char)
    requires
        d < 10,
    ensures
        c == digit_char(d as nat),
{
    if d == 0 {
        '0'
    } else if d == 1 {
        '1'
    } else if d == 2 {
        '2'
    } else if d == 3 {
        '3'
    } else if d == 4 {
        '4'
    } else if d == 5 {
        '5'
    } else if d == 6 {
        '6'
    } else if d == 7 {
        '7'
    } else if d == 8 {
        '8'
    } else {
        '9'
    }
}

/// `n` written in base ten.
pub fn decimal_chars(n: u64) -> (v: Vec<char>)
    ensures
        v@ == decimal(n as nat),
{
    let mut m: u64 = n;
    let mut v: Vec<char> = Vec::new();
    proof {
        assert(decimal(n as nat) + v@ =~= decimal(n as nat));
    }
    while m >= 10
        invariant
            decimal(n as nat) == decimal(m as nat) + v@,
        decreases m,
    {
        let d = digit_to_char(m % 10);
        let ghost before = v@;
        v.insert(0, d);
        proof {
            assert(decimal(m as nat) == decimal((m / 10) as nat).push(d));
            assert(decimal((m / 10) as nat).push(d) + before =~= decimal((m / 10) as nat) + v@);
        }
        m = m / 10;
    }
    let d = digit_to_char(m);
    let ghost before = v@;
    v.insert(0, d);
    proof {
        assert(decimal(m as nat) + before =~= v@);
    }
    v
}

/// `n` written in base ten, as a string.
pub fn decimal_string(n: u64) -> (s: String)
    ensures
        s@ == decimal(n as nat),
{
    let v = decimal_chars(n);
    string_of(v.as_slice())
}

} // verus!
