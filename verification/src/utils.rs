//! Size strings.

use crate::chars::{chars_of, parse_u64_chars};
use crate::text::parse_u64;
use vstd::prelude::*;
use vstd::slice::slice_subrange;

verus! {

/// The factor that a suffix letter stands for: a thousand for `K`, a million for `M`,
/// a thousand million for `G`, in either case.
pub open spec fn suffix_factor(c: char) -> Option<u64> {
    if c == 'K' || c == 'k' {
        Some(1_000u64)
    } else if c == 'M' || c == 'm' {
        Some(1_000_000u64)
    } else if c == 'G' || c == 'g' {
        Some(1_000_000_000u64)
    } else {
        None
    }
}

/// The number of bytes that a size string stands for: a decimal number followed by
/// `K`, `M` or `G`. A text of another form, or a size that does not fit in 64 bits,
/// stands for none.
pub open spec fn size_of(size: Seq<char>) -> Option<u64> {
    if size.len() == 0 {
        None
    } else {
        match suffix_factor(size.last()) {
            Some(factor) => match parse_u64(size.drop_last()) {
                Some(n) => if n * factor <= u64::MAX {
                    Some((n * factor) as u64)
                } else {
                    None
                },
                None => None,
            },
            None => None,
        }
    }
}

/// The factor that a suffix letter stands for.
pub fn factor_of(c: char) -> (r: Option<u64>)
    ensures
        r == suffix_factor(c),
{
    if c == 'K' || c == 'k' {
        Some(1_000)
    } else if c == 'M' || c == 'm' {
        Some(1_000_000)
    } else if c == 'G' || c == 'g' {
        Some(1_000_000_000)
    } else {
        None
    }
}

/// The number of bytes that a size string stands for.
pub fn parse_size(size: &str) -> (r: Option<u64>)
    ensures
        r == size_of(size@),
{
    let text = chars_of(size);
    let n = text.len();
    if n == 0 {
        return None;
    }
    match factor_of(text[n - 1]) {
        Some(factor) => {
            let digits = slice_subrange(text.as_slice(), 0, n - 1);
            proof {
                assert(digits@ =~= size@.drop_last());
            }
            match parse_u64_chars(digits) {
                Some(value) => value.checked_mul(factor),
                None => None,
            }
        },
        None => None,
    }
}

} // verus!
