//! Hexadecimal text, as the `const-hex` crate writes and reads it.

use vstd::prelude::*;

verus! {

/// Why a hexadecimal string gives no bounded byte string.
#[derive(Debug, Eq, PartialEq, Structural)]
pub enum HexError {
    /// An odd number of digits, or a character that is no hexadecimal digit.
    Malformed,
    /// The string stands for `actual` bytes, and the type admits `max`.
    TooLong { actual: usize, max: usize },
}

/// The lower-case digit of a value below 16.
pub open spec fn hex_digit(n: int) -> char {
    if 0 <= n < 10 {
        (0x30 + n) as char
    } else {
        (0x57 + n) as char
    }
}

/// The value of a digit of either case.
pub open spec fn hex_value(c: char) -> Option<int> {
    let code = c as int;
    if 0x30 <= code <= 0x39 {
        Some(code - 0x30)
    } else if 0x41 <= code <= 0x46 {
        Some(code - 0x37)
    } else if 0x61 <= code <= 0x66 {
        Some(code - 0x57)
    } else {
        None
    }
}

/// Two lower-case digits for each byte, the high half first.
pub open spec fn hex_string(bytes: Seq<u8>) -> Seq<char> {
    Seq::new(
        2 * bytes.len(),
        |i: int|
            hex_digit(
                if i % 2 == 0 {
                    bytes[i / 2] as int / 16
                } else {
                    bytes[i / 2] as int % 16
                },
            ),
    )
}

/// `text` without a leading `0x` or `0X`.
pub open spec fn without_prefix(text: Seq<char>) -> Seq<char> {
    if text.len() >= 2 && text[0] == '0' && (text[1] == 'x' || text[1] == 'X') {
        text.skip(2)
    } else {
        text
    }
}

/// The bytes that `text` stands for: behind the optional prefix, an even number
/// of digits and nothing else.
pub open spec fn hex_bytes(text: Seq<char>) -> Option<Seq<u8>> {
    let digits = without_prefix(text);
    if digits.len() % 2 == 0 && forall|i: int|
        0 <= i < digits.len() ==> hex_value(#[trigger] digits[i]) is Some {
        Some(
            Seq::new(
                digits.len() / 2,
                |i: int|
                    (16 * hex_value(digits[2 * i])->0 + hex_value(digits[2 * i + 1])->0) as u8,
            ),
        )
    } else {
        None
    }
}

/// The error of `const_hex::decode`, carried and not looked into.
#[verifier::external_type_specification]
#[verifier::external_body]
pub struct ExFromHexError(const_hex::FromHexError);

/// `const_hex::encode`: two lower-case digits for each byte and no prefix. The
/// text has to fit in memory.
#[verifier::external_body]
pub(crate) fn hex_encode(bytes: &[u8]) -> (r: String)
    requires
        2 * bytes@.len() <= isize::MAX,
    ensures
        r@ == hex_string(bytes@),
{
    const_hex::encode(bytes)
}

/// `const_hex::decode`: strips one `0x` or `0X`, takes digits of either case,
/// and fails on an odd number of characters or on any other character. Which of
/// its errors comes is left unsaid.
#[verifier::external_body]
pub(crate) fn hex_decode(text: &str) -> (r: Result<Vec<u8>, const_hex::FromHexError>)
    ensures
        match r {
            Ok(bytes) => hex_bytes(text@) == Some(bytes@),
            Err(_) => hex_bytes(text@) is None,
        },
{
    const_hex::decode(text)
}

/// What is written as hexadecimal digits is read back unchanged.
pub proof fn hex_round_trip(bytes: Seq<u8>)
    ensures
        hex_bytes(hex_string(bytes)) == Some(bytes),
{
    let text = hex_string(bytes);
    assert forall|n: int| 0 <= n < 16 implies hex_value(#[trigger] hex_digit(n)) == Some(n) by {}
    assert forall|i: int| 0 <= i < text.len() implies hex_value(#[trigger] text[i]) == Some(
        if i % 2 == 0 {
            bytes[i / 2] as int / 16
        } else {
            bytes[i / 2] as int % 16
        },
    ) by {
        let n = if i % 2 == 0 {
            bytes[i / 2] as int / 16
        } else {
            bytes[i / 2] as int % 16
        };
        assert(0 <= n < 16);
        assert(text[i] == hex_digit(n));
    }
    if text.len() >= 2 {
        assert(hex_value(text[1]) is Some);
    }
    assert(without_prefix(text) == text);
    let read = hex_bytes(text)->0;
    assert forall|i: int| 0 <= i < bytes.len() implies read[i] == bytes[i] by {
        assert(hex_value(text[2 * i]) == Some(bytes[i] as int / 16));
        assert(hex_value(text[2 * i + 1]) == Some(bytes[i] as int % 16));
        assert(16 * (bytes[i] as int / 16) + bytes[i] as int % 16 == bytes[i]);
    }
    assert(read =~= bytes);
}

/// Each byte is written as two of the digits `0123456789abcdef`, the one for its
/// high half first.
pub proof fn bytes_are_written_in_lower_case_digits(bytes: Seq<u8>)
    ensures
        hex_string(bytes).len() == 2 * bytes.len(),
        forall|i: int|
            0 <= i < bytes.len() ==> {
                &&& hex_string(bytes)[2 * i] == "0123456789abcdef"@[(#[trigger] bytes[i]) as int
                    / 16]
                &&& hex_string(bytes)[2 * i + 1] == "0123456789abcdef"@[bytes[i] as int % 16]
            },
{
    reveal_strlit("0123456789abcdef");
    assert forall|n: int| 0 <= n < 16 implies #[trigger] hex_digit(n) == "0123456789abcdef"@[n] by {}
    assert forall|i: int| 0 <= i < bytes.len() implies {
        &&& hex_string(bytes)[2 * i] == "0123456789abcdef"@[(#[trigger] bytes[i]) as int / 16]
        &&& hex_string(bytes)[2 * i + 1] == "0123456789abcdef"@[bytes[i] as int % 16]
    } by {
        assert(hex_string(bytes)[2 * i] == hex_digit(bytes[i] as int / 16));
        assert(hex_string(bytes)[2 * i + 1] == hex_digit(bytes[i] as int % 16));
    }
}

/// A digit is read alike in either case, and nothing else is a digit.
pub proof fn digits_are_read_in_either_case(c: char, n: int)
    requires
        0 <= n < 16,
    ensures
        hex_value(c) == Some(n) <==> c == "0123456789abcdef"@[n] || c == "0123456789ABCDEF"@[n],
        hex_value(c) matches Some(value) ==> 0 <= value < 16,
{
    reveal_strlit("0123456789abcdef");
    reveal_strlit("0123456789ABCDEF");
}

/// A prefix, `0x` or `0X`, makes no difference to digits that have none.
pub proof fn prefix_makes_no_difference(digits: Seq<char>)
    requires
        !(digits.len() >= 2 && digits[0] == '0' && (digits[1] == 'x' || digits[1] == 'X')),
    ensures
        hex_bytes("0x"@ + digits) == hex_bytes(digits),
        hex_bytes("0X"@ + digits) == hex_bytes(digits),
{
    reveal_strlit("0x");
    reveal_strlit("0X");
    assert(("0x"@ + digits).skip(2) =~= digits);
    assert(("0X"@ + digits).skip(2) =~= digits);
}

/// Text gives bytes exactly if, behind its prefix if it has one, it is made of
/// pairs of digits; each pair gives the byte with these halves.
pub proof fn pairs_of_digits_give_bytes(text: Seq<char>)
    requires
        !(text.len() >= 2 && text[0] == '0' && (text[1] == 'x' || text[1] == 'X')),
    ensures
        hex_bytes(text) is Some <==> text.len() % 2 == 0 && forall|i: int|
            0 <= i < text.len() ==> hex_value(#[trigger] text[i]) is Some,
        hex_bytes(text) matches Some(bytes) ==> 2 * bytes.len() == text.len() && forall|i: int|
            0 <= i < bytes.len() ==> {
                &&& hex_value(text[2 * i]) == Some((#[trigger] bytes[i]) as int / 16)
                &&& hex_value(text[2 * i + 1]) == Some(bytes[i] as int % 16)
            },
{
    if let Some(bytes) = hex_bytes(text) {
        assert forall|i: int| 0 <= i < bytes.len() implies {
            &&& hex_value(text[2 * i]) == Some((#[trigger] bytes[i]) as int / 16)
            &&& hex_value(text[2 * i + 1]) == Some(bytes[i] as int % 16)
        } by {
            assert(hex_value(text[2 * i]) is Some);
            assert(hex_value(text[2 * i + 1]) is Some);
        }
    }
}

} // verus!
