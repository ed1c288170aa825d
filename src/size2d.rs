//! Image sizes written as `WIDTHxHEIGHT`.

use vstd::prelude::*;
use vstd::string::StringSliceAdditionalSpecFns;

verus! {

/// Width and height of an image, in pixels.
#[derive(Clone, Copy, Debug, PartialEq, Eq, Structural)]
pub struct Size2D(pub usize, pub usize);

/// Why a text is not a size.
#[derive(Clone, Copy, Debug, PartialEq, Eq, Structural)]
pub enum SizeError {
    /// There is no `x` after the width.
    NoHeight,
    /// The width or the height is not a decimal number that fits a `usize`.
    InvalidNumber,
    /// More than two parts separated by `x`.
    TooManyDimensions,
}

/// The byte `x` that separates width from height.
pub const SEPARATOR: u8 = 120;

pub open spec fn is_digit(b: u8) -> bool {
    48 <= b <= 57
}

/// The value of a sequence of decimal digits.
pub open spec fn digits_value(s: Seq<u8>) -> nat
    decreases s.len(),
{
    if s.len() == 0 {
        0
    } else {
        digits_value(s.drop_last()) * 10 + (s.last() - 48) as nat
    }
}

/// The digits of `s` once an optional leading `+` is taken off.
pub open spec fn unsigned_digits(s: Seq<u8>) -> Seq<u8> {
    if s.len() > 0 && s[0] == 43 {
        s.subrange(1, s.len() as int)
    } else {
        s
    }
}

/// `s` spells a `usize`: an optional `+`, then one or more decimal digits whose
/// value fits.
pub open spec fn is_number(s: Seq<u8>) -> bool {
    let d = unsigned_digits(s);
    &&& d.len() > 0
    &&& forall|i: int| 0 <= i < d.len() ==> is_digit(#[trigger] d[i])
    &&& digits_value(d) <= usize::MAX
}

pub open spec fn number_value(s: Seq<u8>) -> nat {
    digits_value(unsigned_digits(s))
}

/// The index of the first `x` in `s`, if any.
#[verifier::opaque]
pub open spec fn first_separator(s: Seq<u8>) -> Option<int> {
    if exists|i: int| 0 <= i < s.len() && s[i] == SEPARATOR {
        Some(
            choose|i: int|
                0 <= i < s.len() && s[i] == SEPARATOR && forall|j: int|
                    0 <= j < i ==> s[j] != SEPARATOR,
        )
    } else {
        None
    }
}

/// The size that the bytes `s` spell: the text before the first `x` is the
/// width, the text up to the next `x` or the end is the height, and no second
/// `x` may follow.
pub open spec fn size_of_text(s: Seq<u8>) -> Result<Size2D, SizeError> {
    match first_separator(s) {
        None => Err(SizeError::NoHeight),
        Some(i) => {
            let w = s.subrange(0, i);
            let rest = s.subrange(i + 1, s.len() as int);
            let h = match first_separator(rest) {
                None => rest,
                Some(j) => rest.subrange(0, j),
            };
            if !is_number(w) || !is_number(h) {
                Err(SizeError::InvalidNumber)
            } else if first_separator(rest) is Some {
                Err(SizeError::TooManyDimensions)
            } else {
                Ok(Size2D(number_value(w) as usize, number_value(h) as usize))
            }
        },
    }
}

proof fn lemma_digits_prefix(s: Seq<u8>, k: int)
    requires
        0 <= k <= s.len(),
    ensures
        digits_value(s.subrange(0, k)) <= digits_value(s),
    decreases s.len(),
{
    if k < s.len() {
        assert(s.drop_last().subrange(0, k) == s.subrange(0, k));
        lemma_digits_prefix(s.drop_last(), k);
    } else {
        assert(s.subrange(0, k) == s);
    }
}

/// The number spelt by `b[lo..hi]`, if it spells one.
fn parse_number(b: &[u8], lo: usize, hi: usize) -> (r: Option<usize>)
    requires
        lo <= hi <= b@.len(),
    ensures
        r is Some <==> is_number(b@.subrange(lo as int, hi as int)),
        r matches Some(v) ==> v as nat == number_value(b@.subrange(lo as int, hi as int)),
{
    let ghost text = b@.subrange(lo as int, hi as int);
    let start: usize = if lo < hi && b[lo] == 43 { lo + 1 } else { lo };
    let ghost d = b@.subrange(start as int, hi as int);
    assert(unsigned_digits(text) == d);
    if start == hi {
        return None;
    }
    let mut acc: usize = 0;
    let mut i: usize = start;
    while i < hi
        invariant
            start <= i <= hi <= b@.len(),
            d == b@.subrange(start as int, hi as int),
            unsigned_digits(b@.subrange(lo as int, hi as int)) == d,
            forall|j: int| 0 <= j < i - start ==> is_digit(#[trigger] d[j]),
            acc as nat == digits_value(d.subrange(0, i - start)),
        decreases hi - i,
    {
        let c = b[i];
        if c < 48 || c > 57 {
            assert(d[i - start] == c);
            return None;
        }
        proof {
            let k = i - start;
            assert(d.subrange(0, k + 1).drop_last() == d.subrange(0, k));
            assert(d.subrange(0, k + 1).last() == c);
        }
        let digit: usize = (c - 48) as usize;
        match acc.checked_mul(10) {
            None => {
                proof {
                    lemma_digits_prefix(d, i - start + 1);
                }
                return None;
            },
            Some(m) => match m.checked_add(digit) {
                None => {
                    proof {
                        lemma_digits_prefix(d, i - start + 1);
                    }
                    return None;
                },
                Some(v) => {
                    acc = v;
                },
            },
        }
        i = i + 1;
    }
    assert(d.subrange(0, hi - start) == d);
    Some(acc)
}

/// The index of the first `x` in `b[from..]`, if any.
fn find_separator(b: &[u8], from: usize) -> (r: Option<usize>)
    requires
        from <= b@.len(),
    ensures
        match r {
            Some(i) => from <= i < b@.len() && first_separator(b@.subrange(from as int, b@.len() as int))
                == Some(i - from),
            None => first_separator(b@.subrange(from as int, b@.len() as int)) is None,
        },
{
    let ghost t = b@.subrange(from as int, b@.len() as int);
    let mut i: usize = from;
    while i < b.len()
        invariant
            from <= i <= b@.len(),
            t == b@.subrange(from as int, b@.len() as int),
            forall|j: int| 0 <= j < i - from ==> #[trigger] t[j] != SEPARATOR,
        decreases b@.len() - i,
    {
        if b[i] == SEPARATOR {
            proof {
                reveal(first_separator);
                let k = i - from;
                assert(t[k] == SEPARATOR);
                let c = choose|c: int|
                    0 <= c < t.len() && t[c] == SEPARATOR && forall|j: int|
                        0 <= j < c ==> t[j] != SEPARATOR;
                assert(0 <= k < t.len() && t[k] == SEPARATOR && forall|j: int|
                    0 <= j < k ==> t[j] != SEPARATOR);
                if c < k {
                    assert(t[c] != SEPARATOR);
                }
                if c > k {
                    assert(t[k] != SEPARATOR);
                }
            }
            return Some(i);
        }
        i = i + 1;
    }
    proof {
        reveal(first_separator);
    }
    None
}

impl Size2D {
    /// Reads a size written as `WIDTHxHEIGHT`, each part a decimal `usize`.
    pub fn from_str(s: &str) -> (r: Result<Size2D, SizeError>)
        ensures
            r == size_of_text(s.spec_bytes()),
    {
        let b = s.as_bytes();
        let n: usize = b.len();
        let ghost all = b@;
        assert(all.subrange(0, all.len() as int) == all);
        match find_separator(b, 0) {
            None => Err(SizeError::NoHeight),
            Some(i) => {
                let ghost rest = all.subrange(i + 1, all.len() as int);
                let second = find_separator(b, i + 1);
                let end: usize = match second {
                    None => b.len(),
                    Some(j) => j,
                };
                let ghost h = match first_separator(rest) {
                    None => rest,
                    Some(j) => rest.subrange(0, j),
                };
                assert(h == all.subrange(i + 1, end as int));
                let w = parse_number(b, 0, i);
                let h = parse_number(b, i + 1, end);
                match (w, h) {
                    (Some(w), Some(h)) => {
                        if second.is_some() {
                            Err(SizeError::TooManyDimensions)
                        } else {
                            Ok(Size2D(w, h))
                        }
                    },
                    _ => Err(SizeError::InvalidNumber),
                }
            },
        }
    }
}
} // verus!
