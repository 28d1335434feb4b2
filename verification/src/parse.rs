//! Parsing of the textual inputs the driver accepts: decimal numbers, the
//! `X/Y` trust-threshold fraction, and comma-separated lists of numbers.

use vstd::prelude::*;
use vstd::string::StringSliceAdditionalSpecFns;
use crate::options::{ThresholdError, TrustThreshold};

verus! {

/// Why a textual input was rejected.
#[derive(Clone, Copy, PartialEq, Eq, Structural, Debug)]
pub enum ParseError {
    /// Not a non-empty string of decimal digits whose value fits in a word.
    InvalidNumber,
    /// A threshold must be written `X/Y`.
    NoSeparator,
    /// The `X` of `X/Y` is not a valid number.
    InvalidNumerator,
    /// The `Y` of `X/Y` is not a valid number.
    InvalidDenominator,
    /// The fraction is not a valid trust threshold.
    InvalidThreshold { which: ThresholdError },
}

pub open spec fn is_digit(b: u8) -> bool {
    48 <= b <= 57
}

pub open spec fn all_digits(bs: Seq<u8>) -> bool {
    forall|i: int| 0 <= i < bs.len() ==> is_digit(#[trigger] bs[i])
}

/// The value of a digit string, most significant digit first.
pub open spec fn digits_value(bs: Seq<u8>) -> int
    decreases bs.len(),
{
    if bs.len() == 0 {
        0
    } else {
        10 * digits_value(bs.drop_last()) + (bs.last() - 48)
    }
}

/// What a decimal number means: a non-empty digit string whose value fits
/// in a word, or nothing.
pub open spec fn u64_parse_spec(bs: Seq<u8>) -> Option<u64> {
    if bs.len() > 0 && all_digits(bs) && digits_value(bs) <= u64::MAX {
        Some(digits_value(bs) as u64)
    } else {
        None
    }
}

proof fn lemma_digits_take_succ(bs: Seq<u8>, i: int)
    requires
        0 <= i < bs.len(),
    ensures
        digits_value(bs.take(i + 1)) == 10 * digits_value(bs.take(i)) + (bs[i] - 48),
{
    assert(bs.take(i + 1).drop_last() =~= bs.take(i));
    assert(bs.take(i + 1).last() == bs[i]);
}

proof fn lemma_digits_nonneg(bs: Seq<u8>)
    requires
        all_digits(bs),
    ensures
        digits_value(bs) >= 0,
    decreases bs.len(),
{
    if bs.len() > 0 {
        assert(all_digits(bs.drop_last()));
        lemma_digits_nonneg(bs.drop_last());
    }
}

/// A digit string's value never falls as more digits are read.
proof fn lemma_digits_prefix_le(bs: Seq<u8>, i: int)
    requires
        all_digits(bs),
        0 <= i <= bs.len(),
    ensures
        digits_value(bs.take(i)) <= digits_value(bs),
    decreases bs.len() - i,
{
    if i == bs.len() {
        assert(bs.take(i) =~= bs);
    } else {
        assert(all_digits(bs.take(i)));
        lemma_digits_nonneg(bs.take(i));
        lemma_digits_take_succ(bs, i);
        lemma_digits_prefix_le(bs, i + 1);
    }
}

/// Parses a decimal number: non-empty, digits only, fitting in a word.
pub fn parse_u64(bs: &[u8]) -> (r: Result<u64, ParseError>)
    ensures
        match u64_parse_spec(bs@) {
            Some(v) => r == Ok::<u64, ParseError>(v),
            None => r == Err::<u64, ParseError>(ParseError::InvalidNumber),
        },
{
    let n = bs.len();
    if n == 0 {
        return Err(ParseError::InvalidNumber);
    }
    let mut k: usize = 0;
    while k < n
        invariant
            0 <= k <= n,
            n == bs@.len(),
            forall|j: int| 0 <= j < k ==> is_digit(#[trigger] bs@[j]),
        decreases n - k,
    {
        let b = bs[k];
        if b < 48 || b > 57 {
            return Err(ParseError::InvalidNumber);
        }
        k += 1;
    }
    let mut acc: u64 = 0;
    let mut k: usize = 0;
    while k < n
        invariant
            0 <= k <= n,
            n == bs@.len(),
            all_digits(bs@),
            acc == digits_value(bs@.take(k as int)),
        decreases n - k,
    {
        let d = bs[k] - 48;
        proof {
            lemma_digits_take_succ(bs@, k as int);
        }
        if acc > (u64::MAX - d as u64) / 10 {
            proof {
                lemma_digits_prefix_le(bs@, k as int + 1);
            }
            return Err(ParseError::InvalidNumber);
        }
        acc = acc * 10 + d as u64;
        k += 1;
    }
    proof {
        assert(bs@.take(n as int) =~= bs@);
    }
    Ok(acc)
}

/// The byte at `i` is the first separator of its kind in the string.
pub open spec fn first_byte_at(bs: Seq<u8>, sep: u8, i: int) -> bool {
    &&& 0 <= i < bs.len()
    &&& bs[i] == sep
    &&& forall|j: int| 0 <= j < i ==> bs[j] != sep
}

/// What a threshold string's two sides mean once split at the slash.
pub open spec fn threshold_parse_spec(left: Seq<u8>, right: Seq<u8>) -> Result<
    TrustThreshold,
    ParseError,
> {
    match u64_parse_spec(left) {
        None => Err(ParseError::InvalidNumerator),
        Some(numerator) => match u64_parse_spec(right) {
            None => Err(ParseError::InvalidDenominator),
            Some(denominator) => {
                if denominator == 0 {
                    Err(ParseError::InvalidThreshold { which: ThresholdError::ZeroDenominator })
                } else if numerator > denominator {
                    Err(ParseError::InvalidThreshold { which: ThresholdError::GreaterThanOne })
                } else if 3 * numerator < denominator {
                    Err(ParseError::InvalidThreshold { which: ThresholdError::BelowOneThird })
                } else {
                    Ok(TrustThreshold { numerator, denominator })
                }
            },
        },
    }
}

/// Parses a trust threshold written `X/Y`, such as `2/3`: both sides
/// decimal numbers, the fraction within [1/3, 1].
pub fn parse_trust_threshold(s: &str) -> (r: Result<TrustThreshold, ParseError>)
    ensures
        ({
            let bs = s.spec_bytes();
            &&& ((forall|i: int| 0 <= i < bs.len() ==> bs[i] != 47) ==> r == Err::<
                TrustThreshold,
                ParseError,
            >(ParseError::NoSeparator))
            &&& forall|i: int|
                first_byte_at(bs, 47, i) ==> r == threshold_parse_spec(
                    bs.subrange(0, i),
                    bs.subrange(i + 1, bs.len() as int),
                )
        }),
{
    let bs = s.as_bytes();
    let n = bs.len();
    let mut k: usize = 0;
    while k < n && bs[k] != 47
        invariant
            0 <= k <= n,
            n == bs@.len(),
            forall|j: int| 0 <= j < k ==> bs@[j] != 47,
        decreases n - k,
    {
        k += 1;
    }
    if k == n {
        return Err(ParseError::NoSeparator);
    }
    proof {
        assert(first_byte_at(bs@, 47, k as int));
        assert forall|i: int| first_byte_at(bs@, 47, i) implies i == k as int by {
            if i < k {
                assert(bs@[i] != 47);
            }
            if i > k {
                assert(bs@[k as int] != 47);
            }
        }
    }
    let left = vstd::slice::slice_subrange(bs, 0, k);
    let right = vstd::slice::slice_subrange(bs, k + 1, n);
    let numerator = match parse_u64(left) {
        Ok(v) => v,
        Err(_) => {
            return Err(ParseError::InvalidNumerator);
        },
    };
    let denominator = match parse_u64(right) {
        Ok(v) => v,
        Err(_) => {
            return Err(ParseError::InvalidDenominator);
        },
    };
    match TrustThreshold::new(numerator, denominator) {
        Ok(t) => Ok(t),
        Err(which) => Err(ParseError::InvalidThreshold { which }),
    }
}

/// What a comma-separated list of numbers means: each segment between
/// commas a valid number, in order.
pub open spec fn list_parse_spec(bs: Seq<u8>) -> Option<Seq<u64>>
    decreases bs.len(),
{
    if exists|i: int| first_byte_at(bs, 44, i) {
        let i = choose|i: int| first_byte_at(bs, 44, i);
        match u64_parse_spec(bs.subrange(0, i)) {
            None => None,
            Some(v) => match list_parse_spec(bs.subrange(i + 1, bs.len() as int)) {
                None => None,
                Some(rest) => Some(seq![v] + rest),
            },
        }
    } else {
        match u64_parse_spec(bs) {
            None => None,
            Some(v) => Some(seq![v]),
        }
    }
}

/// The first comma is unique.
proof fn lemma_first_byte_unique(bs: Seq<u8>, sep: u8, i: int, j: int)
    requires
        first_byte_at(bs, sep, i),
        first_byte_at(bs, sep, j),
    ensures
        i == j,
{
}

/// Parses a comma-separated list of decimal numbers, such as `3,5,8`.
pub fn parse_u64_list(bs: &[u8]) -> (r: Result<Vec<u64>, ParseError>)
    ensures
        match list_parse_spec(bs@) {
            Some(vs) => r matches Ok(v) && v@ == vs,
            None => r == Err::<Vec<u64>, ParseError>(ParseError::InvalidNumber),
        },
    decreases bs@.len(),
{
    let n = bs.len();
    let mut k: usize = 0;
    while k < n && bs[k] != 44
        invariant
            0 <= k <= n,
            n == bs@.len(),
            forall|j: int| 0 <= j < k ==> bs@[j] != 44,
        decreases n - k,
    {
        k += 1;
    }
    if k == n {
        proof {
            assert(!exists|i: int| first_byte_at(bs@, 44, i)) by {
                if exists|i: int| first_byte_at(bs@, 44, i) {
                    let i = choose|i: int| first_byte_at(bs@, 44, i);
                    assert(bs@[i] != 44);
                }
            }
        }
        let v = match parse_u64(bs) {
            Ok(v) => v,
            Err(e) => {
                return Err(e);
            },
        };
        let mut out: Vec<u64> = Vec::new();
        out.push(v);
        proof {
            assert(out@ =~= seq![v]);
        }
        return Ok(out);
    }
    proof {
        assert(first_byte_at(bs@, 44, k as int));
        let i = choose|i: int| first_byte_at(bs@, 44, i);
        lemma_first_byte_unique(bs@, 44, i, k as int);
    }
    let left = vstd::slice::slice_subrange(bs, 0, k);
    let right = vstd::slice::slice_subrange(bs, k + 1, n);
    let v = match parse_u64(left) {
        Ok(v) => v,
        Err(e) => {
            return Err(e);
        },
    };
    let rest = match parse_u64_list(right) {
        Ok(rest) => rest,
        Err(e) => {
            return Err(e);
        },
    };
    let mut out: Vec<u64> = Vec::new();
    out.push(v);
    let m = rest.len();
    let mut k2: usize = 0;
    while k2 < m
        invariant
            0 <= k2 <= m,
            m == rest@.len(),
            out@ =~= seq![v] + rest@.take(k2 as int),
        decreases m - k2,
    {
        out.push(rest[k2]);
        k2 += 1;
    }
    proof {
        assert(out@ =~= seq![v] + rest@);
    }
    Ok(out)
}

} // verus!
