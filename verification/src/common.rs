use crate::text::{chars_of, find_char, find_from};
use vstd::prelude::*;

verus! {

/// Two values of one kind, written `a,b`.
#[derive(Debug, Default, Clone, Copy)]
pub struct Pair<T> {
    pub a: T,
    pub b: T,
}

/// Why a text could not be read as a [`Pair`].
#[derive(Debug, Clone, Copy, PartialEq, Eq, Structural)]
pub enum PairParsingError {
    /// The text holds no comma.
    General,
    /// What stands before the first comma is no number.
    A,
    /// What stands after the first comma is no number.
    B,
}

/// Whether `c` is one of the digits `0` to `9`.
pub open spec fn is_digit(c: char) -> bool {
    '0' <= c && c <= '9'
}

/// Whether `s` consists of digits.
pub open spec fn all_digits(s: Seq<char>) -> bool {
    forall|i: int| 0 <= i < s.len() ==> is_digit(#[trigger] s[i])
}

/// The number that the decimal digits `s` spell.
pub open spec fn digits_value(s: Seq<char>) -> nat
    decreases s.len(),
{
    if s.len() == 0 {
        0
    } else {
        (digits_value(s.drop_last()) * 10 + (s.last() as u32 - '0' as u32)) as nat
    }
}

/// The digits of a numeral: the text without a leading `+`.
pub open spec fn numeral_digits(s: Seq<char>) -> Seq<char> {
    if s.len() > 0 && s[0] == '+' {
        s.subrange(1, s.len() as int)
    } else {
        s
    }
}

/// The number that `s` spells, if it spells one that fits: an optional `+`
/// and then at least one digit, nothing else.
pub open spec fn number_of(s: Seq<char>) -> Option<usize> {
    let digits = numeral_digits(s);
    if digits.len() > 0 && all_digits(digits) && digits_value(digits) <= usize::MAX {
        Some(digits_value(digits) as usize)
    } else {
        None
    }
}

/// A longer row of digits spells no smaller number than its beginning.
proof fn lemma_digits_value_grows(s: Seq<char>, k: int)
    requires
        0 <= k <= s.len(),
        all_digits(s),
    ensures
        digits_value(s.take(k)) <= digits_value(s),
    decreases s.len() - k,
{
    if k < s.len() {
        lemma_digits_value_grows(s, k + 1);
        assert(s.take(k + 1).drop_last() =~= s.take(k));
        assert(is_digit(s[k]));
        assert(s.take(k + 1).last() == s[k]);
    } else {
        assert(s.take(k) =~= s);
    }
}

/// Reads `chars[from..to]` as a number.
fn read_number(chars: &[char], from: usize, to: usize) -> (r: Option<usize>)
    requires
        from <= to <= chars.len(),
    ensures
        r == number_of(chars@.subrange(from as int, to as int)),
{
    let ghost text = chars@.subrange(from as int, to as int);
    let start = if from < to && chars[from] == '+' { from + 1 } else { from };
    let ghost digits = chars@.subrange(start as int, to as int);
    proof {
        if from < to {
            assert(text[0] == chars@[from as int]);
        }
        assert(numeral_digits(text) =~= digits);
    }
    if start == to {
        return None;
    }
    let mut value: usize = 0;
    let mut i = start;
    while i < to
        invariant
            start <= i <= to <= chars.len(),
            from <= start < to,
            digits == chars@.subrange(start as int, to as int),
            numeral_digits(chars@.subrange(from as int, to as int)) == digits,
            forall|j: int| 0 <= j < i - start ==> is_digit(#[trigger] digits[j]),
            value == digits_value(digits.take(i - start)),
        decreases to - i,
    {
        let c = chars[i];
        if !('0' <= c && c <= '9') {
            proof {
                assert(digits[i - start] == c);
                assert(!is_digit(digits[i - start]));
            }
            return None;
        }
        let d = (c as u32 - '0' as u32) as usize;
        proof {
            assert(digits[i - start] == c);
            assert(digits.take(i - start + 1).drop_last() =~= digits.take(i - start));
            assert(digits.take(i - start + 1).last() == c);
        }
        let next = match value.checked_mul(10) {
            Some(v) => v.checked_add(d),
            None => None,
        };
        match next {
            Some(v) => {
                value = v;
            },
            None => {
                proof {
                    assert(digits_value(digits.take(i - start + 1)) > usize::MAX);
                    if all_digits(digits) {
                        lemma_digits_value_grows(digits, i - start + 1);
                    }
                }
                return None;
            },
        }
        i += 1;
    }
    proof {
        assert(digits.take(to - start) =~= digits);
    }
    Some(value)
}

/// Reads a numeral: an optional `+` and then digits.
pub fn parse_number(s: &str) -> (r: Option<usize>)
    ensures
        r == number_of(s@),
{
    let chars = chars_of(s);
    proof {
        assert(chars@.subrange(0, chars.len() as int) =~= s@);
    }
    read_number(chars.as_slice(), 0, chars.len())
}

/// What [`Pair::from_str`] makes of `s`.
pub open spec fn pair_of(s: Seq<char>) -> Result<(usize, usize), PairParsingError> {
    let comma = find_from(s, 0, ',');
    if comma >= s.len() {
        Err(PairParsingError::General)
    } else {
        match number_of(s.subrange(0, comma)) {
            None => Err(PairParsingError::A),
            Some(a) => match number_of(s.subrange(comma + 1, s.len() as int)) {
                None => Err(PairParsingError::B),
                Some(b) => Ok((a, b)),
            },
        }
    }
}

impl Pair<usize> {
    /// Reads `a,b`: two numerals around the first comma, without blanks.
    pub fn from_str(s: &str) -> (r: Result<Pair<usize>, PairParsingError>)
        ensures
            match r {
                Ok(p) => pair_of(s@) == Ok::<(usize, usize), PairParsingError>((p.a, p.b)),
                Err(e) => pair_of(s@) == Err::<(usize, usize), PairParsingError>(e),
            },
    {
        let chars = chars_of(s);
        let n = chars.len();
        let comma = find_char(chars.as_slice(), 0, ',');
        if comma >= n {
            return Err(PairParsingError::General);
        }
        let a = match read_number(chars.as_slice(), 0, comma) {
            None => {
                return Err(PairParsingError::A);
            },
            Some(a) => a,
        };
        let b = match read_number(chars.as_slice(), comma + 1, n) {
            None => {
                return Err(PairParsingError::B);
            },
            Some(b) => b,
        };
        Ok(Pair { a, b })
    }
}

} // verus!
