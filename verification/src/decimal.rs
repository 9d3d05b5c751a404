//! Chunk indices as decimal text: how an index is written in a chunk's
//! location, and how the text of an index part is read.

use vstd::prelude::*;
use vstd::std_specs::iter::IteratorSpec;
use crate::error::UploadError;

verus! {

/// The character that stands for the digit `d`, for `d` below ten.
pub open spec fn digit_char(d: nat) -> char {
    if d == 0 {
        '0'
    } else if d == 1 {
        '1'
    } else if d == 2 {
        '2'
    } else if d == 3 {
        '3'
    } else if d == 4 {
        '4'
    } else if d == 5 {
        '5'
    } else if d == 6 {
        '6'
    } else if d == 7 {
        '7'
    } else if d == 8 {
        '8'
    } else {
        '9'
    }
}

/// The decimal digits of `n`, most significant first, without padding.
pub open spec fn decimal(n: nat) -> Seq<char>
    decreases n,
{
    if n < 10 {
        seq![digit_char(n)]
    } else {
        decimal(n / 10).push(digit_char(n % 10))
    }
}

/// One decimal digit as text.
fn digit_text(d: u32) -> (text: &'static str)
    requires
        d < 10,
    ensures
        text@ == seq![digit_char(d as nat)],
{
    proof {
        reveal_strlit("0");
        reveal_strlit("1");
        reveal_strlit("2");
        reveal_strlit("3");
        reveal_strlit("4");
        reveal_strlit("5");
        reveal_strlit("6");
        reveal_strlit("7");
        reveal_strlit("8");
        reveal_strlit("9");
    }
    let text = if d == 0 {
        "0"
    } else if d == 1 {
        "1"
    } else if d == 2 {
        "2"
    } else if d == 3 {
        "3"
    } else if d == 4 {
        "4"
    } else if d == 5 {
        "5"
    } else if d == 6 {
        "6"
    } else if d == 7 {
        "7"
    } else if d == 8 {
        "8"
    } else {
        "9"
    };
    assert(text@ =~= seq![digit_char(d as nat)]);
    text
}

/// Writes a chunk index as the decimal text that names the chunk's file.
pub fn render_index(index: u32) -> (text: String)
    ensures
        text@ == decimal(index as nat),
    decreases index,
{
    if index < 10 {
        String::from_str(digit_text(index))
    } else {
        let mut text = render_index(index / 10);
        text.append(digit_text(index % 10));
        text
    }
}

/// Whether `c` is one of the ten decimal digits.
pub open spec fn is_digit(c: char) -> bool {
    '0' <= c && c <= '9'
}

/// The number that the digit `c` stands for.
pub open spec fn digit_value(c: char) -> nat {
    if is_digit(c) {
        (c as u32 - '0' as u32) as nat
    } else {
        0
    }
}

/// Whether `s` holds decimal digits only.
pub open spec fn all_digits(s: Seq<char>) -> bool {
    forall|i: int| 0 <= i < s.len() ==> is_digit(#[trigger] s[i])
}

/// The number that a run of decimal digits denotes, most significant first.
pub open spec fn digits_value(s: Seq<char>) -> nat
    decreases s.len(),
{
    if s.len() == 0 {
        0
    } else {
        digits_value(s.drop_last()) * 10 + digit_value(s.last())
    }
}

/// `text` without the plus sign that may lead it.
pub open spec fn unsigned_part(text: Seq<char>) -> Seq<char> {
    if text.len() > 0 && text[0] == '+' {
        text.skip(1)
    } else {
        text
    }
}

/// The chunk index that `text` denotes, if it denotes one: an optional plus
/// sign, then one or more decimal digits whose value fits 32 bits. Nothing
/// else is an index: no empty text, no minus sign, no blanks, no other letters.
pub open spec fn parsed_index(text: Seq<char>) -> Option<u32> {
    let digits = unsigned_part(text);
    if digits.len() > 0 && all_digits(digits) && digits_value(digits) <= u32::MAX {
        Some(digits_value(digits) as u32)
    } else {
        None
    }
}

/// A run of digits denotes at least as much as any of its prefixes.
pub proof fn lemma_digits_value_grows(s: Seq<char>, k: int)
    requires
        0 <= k <= s.len(),
    ensures
        digits_value(s.take(k)) <= digits_value(s),
    decreases s.len(),
{
    if k == s.len() {
        assert(s.take(k) =~= s);
    } else {
        lemma_digits_value_grows(s.drop_last(), k);
        assert(s.drop_last().take(k) =~= s.take(k));
    }
}

/// Reads the text of an index part.
pub fn parse_chunk_index(text: &str) -> (parsed: Result<u32, UploadError>)
    ensures
        match parsed {
            Ok(index) => parsed_index(text@) == Some(index),
            Err(e) => e == UploadError::MalformedChunkIndex && parsed_index(text@) is None,
        },
{
    let mut rest = text.chars();
    let mut value: u32 = 0;
    let mut any: bool = false;
    let mut signed: bool = false;
    let ghost mut seen: int = 0;
    let ghost mut at: int = 0;
    loop
        invariant
            rest.remaining() == text@.skip(at),
            0 <= at <= text@.len(),
            signed ==> text@.len() > 0 && text@[0] == '+' && at >= 1,
            !signed ==> (at == 0 || text@[0] != '+'),
            at == seen + (if signed { 1int } else { 0int }),
            any <==> seen > 0,
            all_digits(unsigned_part(text@).take(seen)),
            value == digits_value(unsigned_part(text@).take(seen)),
        decreases text@.len() - at,
    {
        let ghost before = rest;
        match rest.next() {
            None => {
                proof {
                    assert(at == text@.len());
                    assert(unsigned_part(text@).take(seen) =~= unsigned_part(text@));
                }
                if !any {
                    return Err(UploadError::MalformedChunkIndex);
                }
                return Ok(value);
            },
            Some(c) => {
                proof {
                    assert(c == text@[at]);
                }
                if c == '+' && !any && !signed {
                    signed = true;
                    proof {
                        at = at + 1;
                        assert(unsigned_part(text@).take(0) =~= Seq::<char>::empty());
                    }
                } else {
                    let ghost digits = unsigned_part(text@);
                    proof {
                        assert(digits[seen] == c);
                        assert(digits.take(seen + 1).drop_last() =~= digits.take(seen));
                        assert(digits.take(seen + 1).last() == c);
                    }
                    if !('0' <= c && c <= '9') {
                        return Err(UploadError::MalformedChunkIndex);
                    }
                    let d: u32 = (c as u32) - ('0' as u32);
                    let next: Option<u32> = match value.checked_mul(10) {
                        Some(tens) => tens.checked_add(d),
                        None => None,
                    };
                    match next {
                        Some(v) => {
                            value = v;
                            any = true;
                            proof {
                                seen = seen + 1;
                                at = at + 1;
                            }
                        },
                        None => {
                            proof {
                                lemma_digits_value_grows(digits, seen + 1);
                            }
                            return Err(UploadError::MalformedChunkIndex);
                        },
                    }
                }
            },
        }
    }
}

/// The decimal text of a number holds digits only, at least one of them,
/// and denotes that number.
pub proof fn lemma_decimal_denotes(n: nat)
    ensures
        decimal(n).len() > 0,
        all_digits(decimal(n)),
        digits_value(decimal(n)) == n,
    decreases n,
{
    if n < 10 {
        assert(decimal(n).drop_last() =~= Seq::<char>::empty());
        assert(digits_value(decimal(n).drop_last()) == 0);
    } else {
        lemma_decimal_denotes(n / 10);
        let lead = decimal(n / 10);
        assert(decimal(n).drop_last() =~= lead);
        assert(decimal(n).last() == digit_char(n % 10));
        assert forall|i: int| 0 <= i < decimal(n).len() implies is_digit(
            #[trigger] decimal(n)[i],
        ) by {
            if i < lead.len() {
                assert(decimal(n)[i] == lead[i]);
            }
        }
    }
}

/// Reading back the text that an index was written as gives that index.
pub proof fn lemma_rendered_index_parses_back(index: u32)
    ensures
        parsed_index(decimal(index as nat)) == Some(index),
{
    lemma_decimal_denotes(index as nat);
    assert(is_digit(decimal(index as nat)[0]));
}

/// Two indices are written as the same text only if they are the same index.
pub proof fn lemma_decimal_injective(a: u32, b: u32)
    requires
        decimal(a as nat) == decimal(b as nat),
    ensures
        a == b,
{
    lemma_decimal_denotes(a as nat);
    lemma_decimal_denotes(b as nat);
}

/// An index is written without padding: its text starts with a zero only
/// where the index is zero, and then that zero is the whole text.
pub proof fn lemma_decimal_unpadded(n: nat)
    ensures
        n == 0 ==> decimal(n) == seq!['0'],
        n > 0 ==> decimal(n)[0] != '0',
    decreases n,
{
    if n >= 10 {
        lemma_decimal_unpadded(n / 10);
        lemma_decimal_denotes(n / 10);
        assert(decimal(n)[0] == decimal(n / 10)[0]);
    }
}

} // verus!
