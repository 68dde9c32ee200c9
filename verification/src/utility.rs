//! Numbers as decimal text, and values read from text.

use crate::args::Algorithm;
use vstd::prelude::*;
use vstd::string::StringExecFns;
use vstd::utf8::encode_utf8;

verus! {

/// Whether the byte is one of the ASCII digits `0` to `9`.
pub open spec fn is_digit(b: u8) -> bool {
    0x30 <= b <= 0x39
}

/// Whether every byte is an ASCII digit.
pub open spec fn all_digits(s: Seq<u8>) -> bool {
    forall|i: int| 0 <= i < s.len() ==> is_digit(#[trigger] s[i])
}

/// The number that the digits write in base ten.
pub open spec fn digits_value(s: Seq<u8>) -> nat
    decreases s.len(),
{
    if s.len() == 0 {
        0
    } else {
        (digits_value(s.drop_last()) * 10 + (s.last() - 0x30)) as nat
    }
}

/// The text without one leading `+`, if it has one.
pub open spec fn unsigned_part(text: Seq<u8>) -> Seq<u8> {
    if text.len() > 0 && text[0] == 0x2b {
        text.drop_first()
    } else {
        text
    }
}

/// The `usize` that the text writes: an optional `+`, then one or more decimal
/// digits whose value fits. Any other text writes no number.
pub open spec fn parsed_usize(text: Seq<u8>) -> Option<usize> {
    let digits = unsigned_part(text);
    if digits.len() > 0 && all_digits(digits) && digits_value(digits) <= usize::MAX {
        Some(digits_value(digits) as usize)
    } else {
        None
    }
}

/// The value of a run of digits is no less than that of any of its prefixes.
pub proof fn lemma_prefix_value(s: Seq<u8>, k: int)
    requires
        all_digits(s),
        0 <= k <= s.len(),
    ensures
        digits_value(s.subrange(0, k)) <= digits_value(s),
    decreases s.len(),
{
    if k == s.len() {
        assert(s.subrange(0, k) =~= s);
    } else {
        let front = s.drop_last();
        assert(all_digits(front)) by {
            assert forall|i: int| 0 <= i < front.len() implies is_digit(#[trigger] front[i]) by {
                assert(front[i] == s[i]);
            }
        }
        lemma_prefix_value(front, k);
        assert(front.subrange(0, k) =~= s.subrange(0, k));
        assert(is_digit(s[s.len() - 1]));
    }
}

/// Reads a `usize` from decimal text.
pub fn parse_usize(text: &[u8]) -> (res: Option<usize>)
    ensures
        res == parsed_usize(text@),
{
    let start: usize = if text.len() > 0 && text[0] == 0x2b {
        1
    } else {
        0
    };
    let ghost digits = unsigned_part(text@);
    if text.len() == start {
        return None;
    }
    let mut value: usize = 0;
    let mut i: usize = start;
    assert(digits.subrange(0, 0) =~= Seq::<u8>::empty());
    while i < text.len()
        invariant
            start <= i <= text.len(),
            start <= 1,
            digits == unsigned_part(text@),
            digits.len() == text.len() - start,
            forall|j: int| 0 <= j < digits.len() ==> digits[j] == text@[j + start],
            all_digits(digits.subrange(0, i - start)),
            value == digits_value(digits.subrange(0, i - start)),
        decreases text.len() - i,
    {
        let b = text[i];
        let ghost done = digits.subrange(0, i - start);
        let ghost next = digits.subrange(0, i - start + 1);
        proof {
            assert(next.drop_last() =~= done);
            assert(next.last() == b);
        }
        if b < 0x30 || b > 0x39 {
            assert(!is_digit(digits[i - start]));
            return None;
        }
        let digit = (b - 0x30) as usize;
        let grown = match value.checked_mul(10) {
            Some(tens) => tens.checked_add(digit),
            None => None,
        };
        match grown {
            Some(v) => {
                value = v;
            },
            None => {
                proof {
                    assert(digits_value(next) > usize::MAX);
                    if all_digits(digits) {
                        lemma_prefix_value(digits, i - start + 1);
                    }
                }
                return None;
            },
        }
        proof {
            assert forall|j: int| 0 <= j < next.len() implies is_digit(#[trigger] next[j]) by {
                if j < done.len() {
                    assert(next[j] == done[j]);
                }
            }
        }
        i += 1;
    }
    assert(digits.subrange(0, digits.len() as int) =~= digits);
    Some(value)
}

/// The ten decimal digits as characters, in order.
pub open spec fn digit_chars() -> Seq<char> {
    seq!['0', '1', '2', '3', '4', '5', '6', '7', '8', '9']
}

/// The decimal text of a number, without sign or leading zeros.
pub open spec fn decimal_of(n: nat) -> Seq<char>
    decreases n,
{
    if n < 10 {
        seq![digit_chars()[n as int]]
    } else {
        decimal_of(n / 10).push(digit_chars()[(n % 10) as int])
    }
}

/// The text of one decimal digit.
pub fn digit_str(d: usize) -> (text: &'static str)
    requires
        d < 10,
    ensures
        text@ == seq![digit_chars()[d as int]],
{
    proof {
        reveal_strlit("0");
        reveal_strlit("1");
        reveal_strlit("2");
        reveal_strlit("3");
        reveal_strlit("4");
        reveal_strlit("5");
        reveal_strlit("6");
        reveal_strlit("7");
        reveal_strlit("8");
        reveal_strlit("9");
    }
    let text = if d == 0 {
        "0"
    } else if d == 1 {
        "1"
    } else if d == 2 {
        "2"
    } else if d == 3 {
        "3"
    } else if d == 4 {
        "4"
    } else if d == 5 {
        "5"
    } else if d == 6 {
        "6"
    } else if d == 7 {
        "7"
    } else if d == 8 {
        "8"
    } else {
        "9"
    };
    assert(text@ =~= seq![digit_chars()[d as int]]);
    text
}

/// Writes a number in decimal.
pub fn decimal_string(n: usize) -> (text: String)
    ensures
        text@ == decimal_of(n as nat),
    decreases n,
{
    if n < 10 {
        digit_str(n).to_owned()
    } else {
        let mut text = decimal_string(n / 10);
        text.append(digit_str(n % 10));
        text
    }
}

/// A type whose values can be read from text.
pub trait FromText: Sized {
    /// The value that the text writes, if it writes one.
    spec fn parsed(text: Seq<u8>) -> Option<Self>;

    /// Reads a value from the text.
    fn from_text(text: &str) -> (res: Option<Self>)
        ensures
            res == Self::parsed(encode_utf8(text@)),
    ;
}

impl FromText for usize {
    open spec fn parsed(text: Seq<u8>) -> Option<usize> {
        parsed_usize(text)
    }

    fn from_text(text: &str) -> (res: Option<usize>) {
        parse_usize(text.as_bytes())
    }
}

impl FromText for Algorithm {
    open spec fn parsed(text: Seq<u8>) -> Option<Algorithm> {
        Algorithm::named(text)
    }

    fn from_text(text: &str) -> (res: Option<Algorithm>) {
        Algorithm::from_name(text.as_bytes())
    }
}

/// Text from which values are read, with the caller's own message for text
/// that writes none.
pub trait ParseValue {
    /// The bytes of the text.
    spec fn bytes(&self) -> Seq<u8>;

    /// Reads a `T`; where the text writes none, the error is `err_msg`.
    fn parse_value<T: FromText>(&self, err_msg: &str) -> (res: Result<T, String>)
        ensures
            match res {
                Ok(value) => T::parsed(self.bytes()) == Some(value),
                Err(message) => T::parsed(self.bytes()) is None && message@ == err_msg@,
            },
    ;
}

impl ParseValue for &str {
    open spec fn bytes(&self) -> Seq<u8> {
        encode_utf8(self@)
    }

    fn parse_value<T: FromText>(&self, err_msg: &str) -> (res: Result<T, String>) {
        match T::from_text(self) {
            Some(value) => Ok(value),
            None => Err(err_msg.to_owned()),
        }
    }
}

} // verus!
