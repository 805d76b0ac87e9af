//! The mask literal: `0b` and eight binary digits, with underscores allowed
//! anywhere as separators.

use vstd::arithmetic::power2::{lemma2_to64, lemma_pow2_unfold, pow2};
use vstd::prelude::*;
use vstd::string::StringSliceAdditionalSpecFns;

verus! {

/// The separator that may stand anywhere in a mask literal: `_`.
pub const SEPARATOR: u8 = 0x5f;

/// The digit `0`.
pub const DIGIT_ZERO: u8 = 0x30;

/// The digit `1`.
pub const DIGIT_ONE: u8 = 0x31;

/// The letter `b` of the prefix.
pub const LETTER_B: u8 = 0x62;

/// Why a text is no mask literal.
#[derive(Clone, Copy, Debug, PartialEq, Eq, Structural)]
pub enum MaskError {
    /// Without its separators the text is not ten bytes long.
    WrongLength,
    /// The text does not begin with `0b`.
    WrongPrefix,
    /// Something other than `0` or `1` follows the prefix.
    InvalidDigit,
}

/// The test that every byte but the separator passes.
pub open spec fn is_kept() -> spec_fn(u8) -> bool {
    |byte: u8| byte != SEPARATOR
}

/// The bytes of a literal with the separators taken out.
pub open spec fn without_separators(bytes: Seq<u8>) -> Seq<u8> {
    bytes.filter(is_kept())
}

/// Whether a byte is the digit `0` or the digit `1`.
pub open spec fn is_binary_digit(byte: u8) -> bool {
    byte == DIGIT_ZERO || byte == DIGIT_ONE
}

/// The number that a run of binary digits writes, most significant first.
pub open spec fn binary_value(digits: Seq<u8>) -> nat
    decreases digits.len(),
{
    if digits.len() == 0 {
        0
    } else {
        2 * binary_value(digits.drop_last()) + if digits.last() == DIGIT_ONE {
            1nat
        } else {
            0nat
        }
    }
}

/// The mask byte that a literal's bytes write, or what is wrong with them.
/// The length is judged first, then the prefix, then the digits.
pub open spec fn parsed_mask(bytes: Seq<u8>) -> Result<u8, MaskError> {
    let text = without_separators(bytes);
    if text.len() != 10 {
        Err(MaskError::WrongLength)
    } else if text[0] != DIGIT_ZERO || text[1] != LETTER_B {
        Err(MaskError::WrongPrefix)
    } else if !(forall|i: int| 2 <= i < 10 ==> is_binary_digit(#[trigger] text[i])) {
        Err(MaskError::InvalidDigit)
    } else {
        Ok(binary_value(text.subrange(2, 10)) as u8)
    }
}

/// A run of binary digits writes a number below two to the power of its
/// length, so that eight digits write a number that fits a byte.
pub proof fn lemma_binary_value_bound(digits: Seq<u8>)
    ensures
        binary_value(digits) < pow2(digits.len()),
        digits.len() == 8 ==> binary_value(digits) <= u8::MAX,
    decreases digits.len(),
{
    lemma2_to64();
    if digits.len() > 0 {
        lemma_binary_value_bound(digits.drop_last());
        lemma_pow2_unfold(digits.len());
    }
}

/// Reads a mask literal.
pub fn parse_mask(literal: &str) -> (result: Result<u8, MaskError>)
    ensures
        result == parsed_mask(literal.spec_bytes()),
{
    let bytes = literal.as_bytes();
    let mut text: Vec<u8> = Vec::new();
    let mut i: usize = 0;
    while i < bytes.len()
        invariant
            i <= bytes@.len(),
            text@ == without_separators(bytes@.take(i as int)),
        decreases bytes@.len() - i,
    {
        let byte = bytes[i];
        proof {
            reveal(Seq::filter);
            assert(bytes@.take(i + 1).drop_last() =~= bytes@.take(i as int));
        }
        if byte != SEPARATOR {
            text.push(byte);
        }
        i += 1;
    }
    assert(bytes@.take(i as int) =~= bytes@);
    if text.len() != 10 {
        return Err(MaskError::WrongLength);
    }
    if text[0] != DIGIT_ZERO || text[1] != LETTER_B {
        return Err(MaskError::WrongPrefix);
    }
    let ghost digits = text@.subrange(2, 10);
    let mut value: u32 = 0;
    let mut k: usize = 0;
    proof {
        lemma2_to64();
    }
    while k < 8
        invariant
            k <= 8,
            text@ == without_separators(literal.spec_bytes()),
            text@.len() == 10,
            text@[0] == DIGIT_ZERO && text@[1] == LETTER_B,
            digits == text@.subrange(2, 10),
            forall|j: int| 2 <= j < 2 + k ==> is_binary_digit(#[trigger] text@[j]),
            value == binary_value(digits.take(k as int)),
            value < pow2(k as nat) <= 256,
        decreases 8 - k,
    {
        let digit = text[k + 2];
        if digit != DIGIT_ZERO && digit != DIGIT_ONE {
            assert(!is_binary_digit(text@[k + 2]));
            return Err(MaskError::InvalidDigit);
        }
        proof {
            assert(digits.take(k + 1).drop_last() =~= digits.take(k as int));
            assert(digits.take(k + 1).last() == digit);
            lemma_binary_value_bound(digits.take(k + 1));
            lemma2_to64();
            lemma_pow2_unfold((k + 1) as nat);
        }
        value = 2 * value + if digit == DIGIT_ONE {
            1
        } else {
            0
        };
        k += 1;
    }
    proof {
        assert(digits.take(8) =~= digits);
        lemma2_to64();
    }
    Ok(value as u8)
}

} // verus!
