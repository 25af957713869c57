//! Universally unique identifiers of stored objects.

use vstd::arithmetic::power::pow;
use vstd::prelude::*;

verus! {

/// A universally unique identifier, as a 128 bit number.
#[derive(Debug, Clone, Copy, PartialEq, Eq, Structural)]
pub struct Uuid {
    pub value: u128,
}

/// The number that bytes make, the first the most significant.
pub open spec fn big_endian(bytes: Seq<u8>) -> nat
    decreases bytes.len(),
{
    if bytes.len() == 0 {
        0
    } else {
        256 * big_endian(bytes.drop_last()) + bytes.last() as nat
    }
}

/// The lower case hexadecimal digit of a value below sixteen.
pub open spec fn hex_digit(value: int) -> char {
    if value < 10 {
        (value + 48) as char
    } else {
        (value + 87) as char
    }
}

/// The hexadecimal digit of a 128 bit number at a place, the first the most significant.
pub open spec fn digit_at(value: u128, place: int) -> char {
    hex_digit(value as int / pow(16, (31 - place) as nat) % 16)
}

/// The text of an identifier: its 32 hexadecimal digits with hyphens between them.
pub open spec fn uuid_text(value: u128) -> Seq<char> {
    Seq::new(
        36,
        |i: int|
            if i < 8 {
                digit_at(value, i)
            } else if i == 8 || i == 13 || i == 18 || i == 23 {
                '-'
            } else if i < 13 {
                digit_at(value, i - 1)
            } else if i < 18 {
                digit_at(value, i - 2)
            } else if i < 23 {
                digit_at(value, i - 3)
            } else {
                digit_at(value, i - 4)
            },
    )
}

/// The decimal digit of a value below ten.
pub open spec fn decimal_digit(value: nat) -> char {
    (value + 48) as char
}

/// The decimal text of a number.
pub open spec fn decimal_text(n: nat) -> Seq<char>
    decreases n,
{
    if n < 10 {
        seq![decimal_digit(n)]
    } else {
        decimal_text(n / 10).push(decimal_digit(n % 10))
    }
}

/// What is wrong with bytes that are too few or too many for an identifier, in words.
pub open spec fn uuid_error_text(len: nat) -> Seq<char> {
    "invalid bytes length: expected "@ + decimal_text(16) + ", found "@ + decimal_text(len)
}

impl Uuid {
    /// The identifier with the given sixteen bytes.
    ///
    /// Trusted: `uuid::Uuid::from_slice` takes sixteen bytes in big-endian order and refuses any
    /// other number of them, which its error states.
    #[verifier::external_body]
    pub(crate) fn from_slice(bytes: &[u8]) -> (result: Result<Self, String>)
        ensures
            result is Ok <==> bytes@.len() == 16,
            result matches Ok(uuid) ==> uuid.value == big_endian(bytes@),
            result matches Err(text) ==> text@ == uuid_error_text(bytes@.len()),
    {
        match uuid::Uuid::from_slice(bytes) {
            Ok(uuid) => Ok(Uuid { value: uuid.as_u128() }),
            Err(error) => Err(error.to_string()),
        }
    }

    /// The sixteen bytes of the identifier.
    ///
    /// Trusted: `uuid::Uuid::as_bytes` gives sixteen bytes in big-endian order.
    #[verifier::external_body]
    pub(crate) fn as_bytes(&self) -> (bytes: Vec<u8>)
        ensures
            bytes@.len() == 16,
            big_endian(bytes@) == self.value,
    {
        uuid::Uuid::from_u128(self.value).as_bytes().to_vec()
    }

    /// The text of the identifier.
    ///
    /// Trusted: `uuid::Uuid` displays as its hexadecimal digits, in lower case, with hyphens
    /// between them.
    #[verifier::external_body]
    pub(crate) fn text(&self) -> (text: String)
        ensures
            text@ == uuid_text(self.value),
    {
        uuid::Uuid::from_u128(self.value).to_string()
    }
}

} // verus!
