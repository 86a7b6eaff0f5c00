//! Sequence and character utilities shared by the parsers.
//!
//! The specification functions describe text as `Seq<char>` (or `Seq<u8>` for raw
//! bytes); the executable functions work on slices and are proved against them.

use vstd::prelude::*;

verus! {

/// `needle` stands in `hay` at position `i`.
pub open spec fn occurs_at<T>(hay: Seq<T>, needle: Seq<T>, i: int) -> bool {
    &&& 0 <= i
    &&& i + needle.len() <= hay.len()
    &&& hay.subrange(i, i + needle.len()) == needle
}

/// Position of the first occurrence of `needle` in `hay` at or after `from`.
pub open spec fn find_from<T>(hay: Seq<T>, needle: Seq<T>, from: int) -> Option<int>
    decreases hay.len() + 1 - from,
{
    if from < 0 || from + needle.len() > hay.len() {
        None
    } else if occurs_at(hay, needle, from) {
        Some(from)
    } else {
        find_from(hay, needle, from + 1)
    }
}

/// Position of the first occurrence of `needle` in `hay`.
pub open spec fn find<T>(hay: Seq<T>, needle: Seq<T>) -> Option<int> {
    find_from(hay, needle, 0)
}

/// `find_from` returns the least position at or after `from` where `needle` stands,
/// and `None` exactly when there is none.
pub proof fn lemma_find_from<T>(hay: Seq<T>, needle: Seq<T>, from: int)
    requires
        0 <= from,
    ensures
        match find_from(hay, needle, from) {
            Some(i) => {
                &&& from <= i
                &&& occurs_at(hay, needle, i)
                &&& forall|j: int| from <= j < i ==> !occurs_at(hay, needle, j)
            },
            None => forall|j: int| from <= j ==> !occurs_at(hay, needle, j),
        },
    decreases hay.len() + 1 - from,
{
    if from + needle.len() > hay.len() {
    } else if occurs_at(hay, needle, from) {
    } else {
        lemma_find_from(hay, needle, from + 1);
    }
}

/// Any position that satisfies the defining property of the first occurrence is the
/// one that `find_from` returns.
pub proof fn lemma_find_from_unique<T>(hay: Seq<T>, needle: Seq<T>, from: int, i: int)
    requires
        0 <= from <= i,
        occurs_at(hay, needle, i),
        forall|j: int| from <= j < i ==> !occurs_at(hay, needle, j),
    ensures
        find_from(hay, needle, from) == Some(i),
{
    lemma_find_from(hay, needle, from);
}

/// No occurrence at or after `from` means `find_from` is `None`.
pub proof fn lemma_find_from_none<T>(hay: Seq<T>, needle: Seq<T>, from: int)
    requires
        0 <= from,
        forall|j: int| from <= j ==> !occurs_at(hay, needle, j),
    ensures
        find_from(hay, needle, from) is None,
{
    lemma_find_from(hay, needle, from);
}

/// Whether `needle` stands in `hay` at position `i`, for bytes.
pub fn bytes_match_at(hay: &[u8], needle: &[u8], i: usize) -> (r: bool)
    ensures
        r == occurs_at(hay@, needle@, i as int),
{
    let n = needle.len();
    let h = hay.len();
    if n > h || i > h - n {
        return false;
    }
    let mut j: usize = 0;
    while j < n
        invariant
            n == needle@.len(),
            h == hay@.len(),
            i + n <= hay@.len(),
            j <= n,
            forall|k: int| 0 <= k < j ==> hay@[i + k] == needle@[k],
        decreases n - j,
    {
        if hay[i + j] != needle[j] {
            proof {
                assert(hay@.subrange(i as int, i + n)[j as int] == hay@[i + j]);
            }
            return false;
        }
        j += 1;
    }
    proof {
        assert(hay@.subrange(i as int, i + n) =~= needle@);
    }
    true
}

/// Position of the first occurrence of `needle` in `hay` at or after `from`, for bytes.
pub fn find_bytes_from(hay: &[u8], needle: &[u8], from: usize) -> (r: Option<usize>)
    ensures
        match r {
            Some(i) => find_from(hay@, needle@, from as int) == Some(i as int),
            None => find_from(hay@, needle@, from as int) is None,
        },
{
    let n = needle.len();
    let h = hay.len();
    if n > h || from > h - n {
        proof {
            lemma_find_from(hay@, needle@, from as int);
        }
        return None;
    }
    if n == 0 {
        proof {
            assert(hay@.subrange(from as int, from as int) =~= needle@);
        }
        return Some(from);
    }
    let mut i: usize = from;
    while i <= h - n
        invariant
            n == needle@.len(),
            h == hay@.len(),
            n <= h,
            from <= i <= h - n + 1,
            h - n < usize::MAX,
            forall|j: int| from <= j < i ==> !occurs_at(hay@, needle@, j),
        decreases h - n + 1 - i,
    {
        if bytes_match_at(hay, needle, i) {
            proof {
                lemma_find_from_unique(hay@, needle@, from as int, i as int);
            }
            return Some(i);
        }
        i += 1;
    }
    proof {
        lemma_find_from_none(hay@, needle@, from as int);
    }
    None
}

} // verus!

verus! {

/// `needle` occurs somewhere in `hay`.
pub open spec fn contains<T>(hay: Seq<T>, needle: Seq<T>) -> bool {
    find(hay, needle) is Some
}

/// `hay` begins with `prefix`.
pub open spec fn starts_with<T>(hay: Seq<T>, prefix: Seq<T>) -> bool {
    occurs_at(hay, prefix, 0)
}

/// `hay` ends with `suffix`.
pub open spec fn ends_with<T>(hay: Seq<T>, suffix: Seq<T>) -> bool {
    occurs_at(hay, suffix, hay.len() - suffix.len())
}

/// The pieces of `s` between successive occurrences of the non-empty delimiter `d`,
/// scanning from the left; a text without the delimiter is its own single piece.
pub open spec fn split(s: Seq<char>, d: Seq<char>) -> Seq<Seq<char>>
    decreases s.len(),
{
    match find(s, d) {
        Some(i) => if d.len() > 0 && 0 <= i && i + d.len() <= s.len() {
            seq![s.take(i)] + split(s.skip(i + d.len()), d)
        } else {
            seq![s]
        },
        None => seq![s],
    }
}

/// The text before and after the first occurrence of `d`, if there is one.
pub open spec fn split_once(s: Seq<char>, d: Seq<char>) -> Option<(Seq<char>, Seq<char>)> {
    match find(s, d) {
        Some(i) => Some((s.take(i), s.skip(i + d.len()))),
        None => None,
    }
}

/// A set of characters that can be stripped from the ends of a text.
#[derive(Clone, Copy, Debug)]
pub enum CharClass {
    /// The characters with the Unicode property White_Space.
    Whitespace,
    /// One given character.
    Only(char),
}

/// The characters with the Unicode property White_Space.
pub open spec fn is_whitespace(c: char) -> bool {
    ||| ('\u{9}' <= c && c <= '\u{d}')
    ||| c == ' '
    ||| c == '\u{85}'
    ||| c == '\u{a0}'
    ||| c == '\u{1680}'
    ||| ('\u{2000}' <= c && c <= '\u{200a}')
    ||| c == '\u{2028}'
    ||| c == '\u{2029}'
    ||| c == '\u{202f}'
    ||| c == '\u{205f}'
    ||| c == '\u{3000}'
}

impl CharClass {
    /// Whether `c` belongs to the class.
    pub open spec fn has(self, c: char) -> bool {
        match self {
            CharClass::Whitespace => is_whitespace(c),
            CharClass::Only(x) => c == x,
        }
    }

    /// Whether `c` belongs to the class.
    pub fn test(&self, c: char) -> (r: bool)
        ensures
            r == self.has(c),
    {
        match self {
            CharClass::Whitespace => {
                ('\u{9}' <= c && c <= '\u{d}') || c == ' ' || c == '\u{85}' || c == '\u{a0}' || c
                    == '\u{1680}' || ('\u{2000}' <= c && c <= '\u{200a}') || c == '\u{2028}' || c
                    == '\u{2029}' || c == '\u{202f}' || c == '\u{205f}' || c == '\u{3000}'
            },
            CharClass::Only(x) => c == *x,
        }
    }
}

/// `s` without its longest prefix of characters of `class`.
pub open spec fn strip_leading(s: Seq<char>, class: CharClass) -> Seq<char>
    decreases s.len(),
{
    if s.len() > 0 && class.has(s[0]) {
        strip_leading(s.drop_first(), class)
    } else {
        s
    }
}

/// `s` without its longest suffix of characters of `class`.
pub open spec fn strip_trailing(s: Seq<char>, class: CharClass) -> Seq<char>
    decreases s.len(),
{
    if s.len() > 0 && class.has(s.last()) {
        strip_trailing(s.drop_last(), class)
    } else {
        s
    }
}

/// `s` without leading and trailing whitespace.
pub open spec fn trim(s: Seq<char>) -> Seq<char> {
    strip_trailing(strip_leading(s, CharClass::Whitespace), CharClass::Whitespace)
}

/// `s` without leading and trailing occurrences of `c`.
pub open spec fn trim_matches(s: Seq<char>, c: char) -> Seq<char> {
    strip_trailing(strip_leading(s, CharClass::Only(c)), CharClass::Only(c))
}

/// Stripping never lengthens a text.
pub proof fn lemma_strip_leading_len(s: Seq<char>, class: CharClass)
    ensures
        strip_leading(s, class).len() <= s.len(),
    decreases s.len(),
{
    if s.len() > 0 && class.has(s[0]) {
        lemma_strip_leading_len(s.drop_first(), class);
    }
}

/// The length of the longest prefix of `s` without whitespace.
pub open spec fn word_len(s: Seq<char>) -> nat
    decreases s.len(),
{
    if s.len() == 0 || is_whitespace(s[0]) {
        0
    } else {
        1 + word_len(s.drop_first())
    }
}

/// The maximal runs of non-whitespace characters of `s`, in order.
pub open spec fn split_whitespace(s: Seq<char>) -> Seq<Seq<char>>
    decreases s.len(),
{
    let t = strip_leading(s, CharClass::Whitespace);
    let n = word_len(t);
    if 0 < n && n <= t.len() && t.len() <= s.len() {
        seq![t.take(n as int)] + split_whitespace(t.skip(n as int))
    } else {
        Seq::empty()
    }
}

/// `line` without one trailing carriage return.
pub open spec fn strip_cr(line: Seq<char>) -> Seq<char> {
    if line.len() > 0 && line.last() == '\r' {
        line.drop_last()
    } else {
        line
    }
}

/// The lines of `s`: the pieces between line feeds, each without a carriage return
/// that stood before its line feed. A final line feed starts no further line.
pub open spec fn lines(s: Seq<char>) -> Seq<Seq<char>>
    decreases s.len(),
{
    if s.len() == 0 {
        Seq::empty()
    } else {
        match find(s, seq!['\n']) {
            Some(i) => if 0 <= i < s.len() {
                seq![strip_cr(s.take(i))] + lines(s.skip(i + 1))
            } else {
                seq![s]
            },
            None => seq![s],
        }
    }
}

/// The value of a decimal digit.
pub open spec fn digit_value(c: char) -> nat {
    (c as u32 - '0' as u32) as nat
}

/// `c` is one of `0` to `9`.
pub open spec fn is_digit(c: char) -> bool {
    '0' <= c && c <= '9'
}

/// Every character of `s` is a decimal digit.
pub open spec fn all_digits(s: Seq<char>) -> bool {
    forall|i: int| 0 <= i < s.len() ==> is_digit(#[trigger] s[i])
}

/// The number that the digits of `s` write in base ten.
pub open spec fn decimal_value(s: Seq<char>) -> nat
    decreases s.len(),
{
    if s.len() == 0 {
        0
    } else {
        decimal_value(s.drop_last()) * 10 + digit_value(s.last())
    }
}

/// The number written by `s`: decimal digits after an optional `+`, at least one
/// digit, and a value that fits in 64 bits. Anything else is no number.
pub open spec fn parse_u64(s: Seq<char>) -> Option<u64> {
    let digits = if s.len() > 0 && s[0] == '+' {
        s.drop_first()
    } else {
        s
    };
    if digits.len() > 0 && all_digits(digits) && decimal_value(digits) <= u64::MAX {
        Some(decimal_value(digits) as u64)
    } else {
        None
    }
}

/// The character for a digit below ten.
pub open spec fn digit_char(d: nat) -> char {
    if d == 0 { '0' } else if d == 1 { '1' } else if d == 2 { '2' } else if d == 3 { '3' }
    else if d == 4 { '4' } else if d == 5 { '5' } else if d == 6 { '6' } else if d == 7 { '7' }
    else if d == 8 { '8' } else { '9' }
}

/// `n` written in base ten, without leading zeros.
pub open spec fn decimal(n: nat) -> Seq<char>
    decreases n,
{
    if n < 10 {
        seq![digit_char(n)]
    } else {
        decimal(n / 10).push(digit_char(n % 10))
    }
}

/// The text of an optional string.
pub open spec fn text_of(r: Option<String>) -> Option<Seq<char>> {
    match r {
        Some(t) => Some(t@),
        None => None,
    }
}

/// The views of a list of strings.
pub open spec fn string_views(items: Seq<String>) -> Seq<Seq<char>> {
    Seq::new(items.len(), |i: int| items[i]@)
}

/// The views of a vector of character vectors.
pub open spec fn seqs_of(v: Seq<Vec<char>>) -> Seq<Seq<char>> {
    Seq::new(v.len(), |i: int| v[i]@)
}

} // verus!

verus! {

/// Appends the bytes of `src` to `dst`.
pub fn append_bytes(dst: &mut Vec<u8>, src: &[u8])
    ensures
        final(dst)@ == old(dst)@ + src@,
{
    let n = src.len();
    let mut i: usize = 0;
    proof {
        assert(dst@ =~= old(dst)@ + src@.take(0));
    }
    while i < n
        invariant
            n == src@.len(),
            i <= n,
            dst@ == old(dst)@ + src@.take(i as int),
        decreases n - i,
    {
        dst.push(src[i]);
        i += 1;
        proof {
            assert(src@.take(i as int) =~= src@.take(i - 1).push(src@[i - 1]));
            assert(dst@ =~= old(dst)@ + src@.take(i as int));
        }
    }
    proof {
        assert(src@.take(n as int) =~= src@);
    }
}

/// The UTF-8 encoding of a concatenation is the concatenation of the encodings.
pub proof fn lemma_encode_utf8_concat(a: Seq<char>, b: Seq<char>)
    ensures
        vstd::utf8::encode_utf8(a + b) == vstd::utf8::encode_utf8(a) + vstd::utf8::encode_utf8(b),
    decreases a.len(),
{
    if a.len() == 0 {
        assert(a + b =~= b);
        assert(vstd::utf8::encode_utf8(a) + vstd::utf8::encode_utf8(b) =~= vstd::utf8::encode_utf8(
            b,
        ));
    } else {
        assert((a + b).drop_first() =~= a.drop_first() + b);
        lemma_encode_utf8_concat(a.drop_first(), b);
        assert(vstd::utf8::encode_utf8(a + b) =~= vstd::utf8::encode_utf8(a)
            + vstd::utf8::encode_utf8(b));
    }
}

/// No character of `s` is a carriage return or a line feed.
pub open spec fn no_break_chars(s: Seq<char>) -> bool {
    forall|i: int| 0 <= i < s.len() ==> #[trigger] s[i] != '\r' && s[i] != '\n'
}

/// No byte of `b` is a carriage return or a line feed.
pub open spec fn no_break_bytes(b: Seq<u8>) -> bool {
    forall|i: int| 0 <= i < b.len() ==> #[trigger] b[i] != 13u8 && b[i] != 10u8
}

/// The encoding of a character holds a byte below 128 only where the character is
/// that byte.
pub proof fn lemma_encode_scalar_low_bytes(v: u32)
    ensures
        vstd::utf8::encode_scalar(v).len() > 0,
        forall|k: int|
            0 <= k < vstd::utf8::encode_scalar(v).len() && (
            #[trigger] vstd::utf8::encode_scalar(v)[k]) < 0x80u8 ==> v
                == vstd::utf8::encode_scalar(v)[k] as u32,
{
    let low = v & 0x7F;
    assert(v <= 0x7F ==> v & 0x7F == v) by (bit_vector);
    let a = ((v >> 6) & 0x1F) as u8;
    let b = ((v >> 12) & 0x0F) as u8;
    let c = ((v >> 18) & 0x7) as u8;
    let d = (v & 0x3F) as u8;
    let e = ((v >> 6) & 0x3F) as u8;
    let f = ((v >> 12) & 0x3F) as u8;
    assert(0xC0u8 | a >= 0x80u8) by (bit_vector);
    assert(0xE0u8 | b >= 0x80u8) by (bit_vector);
    assert(0xF0u8 | c >= 0x80u8) by (bit_vector);
    assert(0x80u8 | d >= 0x80u8) by (bit_vector);
    assert(0x80u8 | e >= 0x80u8) by (bit_vector);
    assert(0x80u8 | f >= 0x80u8) by (bit_vector);
}

/// A text without line breaks is encoded without the bytes of a line break, and a
/// text that is not empty is encoded with at least one byte.
pub proof fn lemma_encode_no_breaks(s: Seq<char>)
    requires
        no_break_chars(s),
    ensures
        no_break_bytes(vstd::utf8::encode_utf8(s)),
        s.len() > 0 ==> vstd::utf8::encode_utf8(s).len() > 0,
    decreases s.len(),
{
    if s.len() > 0 {
        vstd::utf8::char_is_scalar(s[0]);
        let first = vstd::utf8::encode_scalar(s[0] as u32);
        let rest = vstd::utf8::encode_utf8(s.drop_first());
        lemma_encode_scalar_low_bytes(s[0] as u32);
        assert forall|i: int| 0 <= i < s.drop_first().len() implies #[trigger] s.drop_first()[i]
            != '\r' && s.drop_first()[i] != '\n' by {
            assert(s.drop_first()[i] == s[i + 1]);
        }
        lemma_encode_no_breaks(s.drop_first());
        let all = vstd::utf8::encode_utf8(s);
        assert(all =~= first + rest);
        assert(s[0] != '\r' && s[0] != '\n');
        assert forall|i: int| 0 <= i < all.len() implies #[trigger] all[i] != 13u8 && all[i]
            != 10u8 by {
            if i < first.len() {
                assert(all[i] == first[i]);
                if first[i] == 13u8 || first[i] == 10u8 {
                    let code = s[0] as u32;
                    assert(code == first[i] as u32);
                    vstd::utf8::char_u32_cast(s[0], code);
                    assert(code == 13u32 ==> code as char == '\r');
                    assert(code == 10u32 ==> code as char == '\n');
                }
            } else {
                assert(all[i] == rest[i - first.len()]);
            }
        }
    }
}

} // verus!
