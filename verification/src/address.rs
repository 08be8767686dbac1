//! Addresses of cache entries and their hexadecimal form.

use crate::error::{Error, FromHexError};
use crate::text::write_decimal;
use vstd::prelude::*;
#[allow(unused_imports)]
use vstd::string::StringSliceAdditionalSpecFns;

verus! {

/// The number of bytes of an address.
pub const ADDRESS_SIZE: usize = 64;

/// The address of a cache entry.
#[derive(Clone, Copy, Debug, PartialEq, Eq, Hash)]
pub struct Address([u8; 64]);

impl View for Address {
    type V = Seq<u8>;

    closed spec fn view(&self) -> Seq<u8> {
        self.0@
    }
}

pub broadcast proof fn lemma_address_length(a: Address)
    ensures
        #[trigger] a@.len() == 64,
{
}

/// The lower case hexadecimal digit of a value below sixteen.
pub open spec fn hex_digit(d: int) -> char {
    if d < 10 {
        (48 + d) as char
    } else {
        (87 + d) as char
    }
}

/// Two lower case hexadecimal digits for each byte.
pub open spec fn hex_encoding(bytes: Seq<u8>) -> Seq<char> {
    Seq::new(
        2 * bytes.len(),
        |i: int|
            if i % 2 == 0 {
                hex_digit(bytes[i / 2] as int / 16)
            } else {
                hex_digit(bytes[i / 2] as int % 16)
            },
    )
}

/// Whether a byte is a hexadecimal digit, of either case.
pub open spec fn is_hex_digit(b: u8) -> bool {
    48 <= b <= 57 || 65 <= b <= 70 || 97 <= b <= 102
}

/// The value of a hexadecimal digit.
pub open spec fn hex_value(b: u8) -> int {
    if b <= 57 {
        b - 48
    } else if b <= 70 {
        b - 55
    } else {
        b - 87
    }
}

/// Whether a text is an even number of hexadecimal digits.
pub open spec fn is_hex(text: Seq<u8>) -> bool {
    text.len() % 2 == 0 && forall|i: int| 0 <= i < text.len() ==> is_hex_digit(#[trigger] text[i])
}

/// The bytes that pairs of hexadecimal digits stand for.
pub open spec fn hex_decoding(text: Seq<u8>) -> Seq<u8> {
    Seq::new(
        text.len() / 2,
        |i: int| (16 * hex_value(text[2 * i]) + hex_value(text[2 * i + 1])) as u8,
    )
}

/// Why a text that is not hexadecimal is refused: an odd length comes first,
/// then the first byte that is no digit.
pub open spec fn hex_refusal(text: Seq<u8>, e: FromHexError) -> bool {
    match e {
        FromHexError::OddLength => text.len() % 2 != 0,
        FromHexError::InvalidHexCharacter { c, index } => {
            &&& text.len() % 2 == 0
            &&& index < text.len()
            &&& !is_hex_digit(text[index as int])
            &&& c == text[index as int] as char
            &&& forall|i: int| 0 <= i < index ==> is_hex_digit(#[trigger] text[i])
        },
        FromHexError::InvalidStringLength => false,
    }
}

/// `hex::encode`: each byte as two lower case hexadecimal digits.
#[verifier::external_body]
fn hex_encode(bytes: &[u8]) -> (s: String)
    ensures
        s@ == hex_encoding(bytes@),
{
    hex::encode(bytes)
}

/// `hex::decode`: the bytes for an even number of hexadecimal digits of either
/// case. Anything else is refused, an odd number of bytes before a byte that is
/// no digit, and of those the first.
#[verifier::external_body]
fn hex_decode(text: &str) -> (r: Result<Vec<u8>, FromHexError>)
    ensures
        r is Ok <==> is_hex(text.spec_bytes()),
        r matches Ok(bytes) ==> bytes@ == hex_decoding(text.spec_bytes()),
        r matches Err(e) ==> hex_refusal(text.spec_bytes(), e),
{
    match hex::decode(text) {
        Ok(bytes) => Ok(bytes),
        Err(hex::FromHexError::InvalidHexCharacter { c, index }) => Err(
            FromHexError::InvalidHexCharacter { c, index },
        ),
        Err(hex::FromHexError::OddLength) => Err(FromHexError::OddLength),
        Err(hex::FromHexError::InvalidStringLength) => Err(FromHexError::InvalidStringLength),
    }
}

/// The message for an address of the wrong length.
pub open spec fn length_message(len: nat) -> Seq<char> {
    "Invalid address length ("@ + crate::text::decimal(len)
        + "). Only 64 byte addresses are supported."@
}

fn wrong_length(len: usize) -> (e: Error)
    ensures
        e matches Error::Runtime { msg } && msg@ == length_message(len as nat),
{
    let mut msg = "Invalid address length (".to_owned();
    msg.append(write_decimal(len as u64).as_str());
    msg.append("). Only 64 byte addresses are supported.");
    Error::Runtime { msg }
}

impl Address {
    /// The hexadecimal form of the address.
    pub open spec fn hex(self) -> Seq<char> {
        hex_encoding(self@)
    }

    /// The address for bytes given as a slice, which must hold as many as an
    /// address has.
    pub fn try_from(bytes: &[u8]) -> (r: Result<Address, Error>)
        ensures
            r is Ok <==> bytes@.len() == 64,
            r matches Ok(a) ==> a@ == bytes@,
            r matches Err(e) ==> (e matches Error::Runtime { msg } && msg@ == length_message(
                bytes@.len(),
            )),
    {
        if bytes.len() != ADDRESS_SIZE {
            return Err(wrong_length(bytes.len()));
        }
        let mut array: [u8; 64] = [0u8; 64];
        for i in 0..ADDRESS_SIZE
            invariant
                bytes@.len() == 64,
                forall|j: int| 0 <= j < i ==> array@[j] == bytes@[j],
        {
            array[i] = bytes[i];
        }
        assert(array@ =~= bytes@);
        Ok(Address(array))
    }

    /// The address that a hexadecimal text stands for.
    pub fn from_hex(hex: &str) -> (r: Result<Address, Error>)
        ensures
            r is Ok <==> is_hex(hex.spec_bytes()) && hex.spec_bytes().len() == 128,
            r matches Ok(a) ==> a@ == hex_decoding(hex.spec_bytes()),
            r matches Err(e) ==> match e {
                Error::InvalidAddress(refusal) => hex_refusal(hex.spec_bytes(), refusal),
                Error::Runtime { msg } => is_hex(hex.spec_bytes()) && msg@ == length_message(
                    (hex.spec_bytes().len() / 2) as nat,
                ),
                _ => false,
            },
    {
        match hex_decode(hex) {
            Ok(bytes) => Address::try_from(bytes.as_slice()),
            Err(e) => Err(Error::InvalidAddress(e)),
        }
    }

    /// The address in lower case hexadecimal, as it is shown to people.
    pub fn to_hex(&self) -> (s: String)
        ensures
            s@ == self.hex(),
    {
        hex_encode(self.0.as_slice())
    }
}

impl vstd::std_specs::convert::FromSpecImpl<[u8; 64]> for Address {
    open spec fn obeys_from_spec() -> bool {
        true
    }

    closed spec fn from_spec(bytes: [u8; 64]) -> Address {
        Address(bytes)
    }
}

impl From<[u8; 64]> for Address {
    fn from(bytes: [u8; 64]) -> (a: Address)
        ensures
            a@ == bytes@,
    {
        Address(bytes)
    }
}

proof fn lemma_hex_digit(d: int)
    requires
        0 <= d < 16,
    ensures
        (hex_digit(d) as u32) < 128,
        is_hex_digit(hex_digit(d) as u8),
        hex_value(hex_digit(d) as u8) == d,
{
}

/// The hexadecimal form of bytes reads back as those bytes.
pub proof fn law_hex_round_trip(bytes: Seq<u8>)
    ensures
        ({
            let text = vstd::utf8::encode_utf8(hex_encoding(bytes));
            is_hex(text) && text.len() == 2 * bytes.len() && hex_decoding(text) == bytes
        }),
{
    let hex = hex_encoding(bytes);
    let text = vstd::utf8::encode_utf8(hex);
    assert forall|i: int| 0 <= i < hex.len() implies {
        &&& (#[trigger] hex[i] as u32) < 128
        &&& is_hex_digit(hex[i] as u8)
        &&& hex_value(hex[i] as u8) == if i % 2 == 0 {
            bytes[i / 2] as int / 16
        } else {
            bytes[i / 2] as int % 16
        }
    } by {
        lemma_hex_digit(bytes[i / 2] as int / 16);
        lemma_hex_digit(bytes[i / 2] as int % 16);
    }
    assert(vstd::utf8::is_ascii_chars(hex));
    vstd::utf8::is_ascii_chars_encode_utf8(hex);
    assert(text =~= Seq::new(hex.len(), |i: int| hex[i] as u8));
    assert forall|i: int| 0 <= i < bytes.len() implies hex_decoding(text)[i] == bytes[i] by {
        assert(text[2 * i] == hex[2 * i] as u8);
        assert(text[2 * i + 1] == hex[2 * i + 1] as u8);
    }
    assert(hex_decoding(text) =~= bytes);
}

/// Bytes with the same hexadecimal form are the same.
pub proof fn law_hex_is_injective(a: Seq<u8>, b: Seq<u8>)
    requires
        hex_encoding(a) == hex_encoding(b),
    ensures
        a == b,
{
    law_hex_round_trip(a);
    law_hex_round_trip(b);
}

/// A digit means the same in upper and in lower case, so texts that differ only
/// in the case of their digits stand for the same bytes.
pub proof fn law_hex_ignores_case(upper: Seq<u8>, lower: Seq<u8>)
    requires
        is_hex(upper),
        upper.len() == lower.len(),
        forall|i: int|
            0 <= i < upper.len() ==> (#[trigger] lower[i] == upper[i] || (65 <= upper[i] <= 70
                && lower[i] == upper[i] + 32)),
    ensures
        is_hex(lower),
        hex_decoding(lower) == hex_decoding(upper),
{
    assert forall|i: int| 0 <= i < lower.len() implies is_hex_digit(#[trigger] lower[i])
        && hex_value(lower[i]) == hex_value(upper[i]) by {
        assert(is_hex_digit(upper[i]));
    }
    assert(hex_decoding(lower) =~= hex_decoding(upper));
}

/// The message for an address of the wrong length names the length.
pub proof fn law_length_message_names_the_length(a: nat, b: nat)
    requires
        length_message(a) == length_message(b),
    ensures
        a == b,
{
    let head = "Invalid address length ("@;
    let tail = "). Only 64 byte addresses are supported."@;
    let s = crate::text::decimal(a);
    let t = crate::text::decimal(b);
    assert(length_message(a).len() == head.len() + s.len() + tail.len());
    assert(length_message(b).len() == head.len() + t.len() + tail.len());
    assert(s =~= length_message(a).subrange(head.len() as int, (head.len() + s.len()) as int));
    assert(t =~= length_message(b).subrange(head.len() as int, (head.len() + t.len()) as int));
    crate::text::law_decimal_is_injective(a, b);
}

/// A text is refused for the first thing that is wrong with it, and one that is refused is not
/// hexadecimal.
pub proof fn law_refusals_are_justified(text: Seq<u8>, e: FromHexError)
    requires
        hex_refusal(text, e),
    ensures
        !is_hex(text),
        e is OddLength <==> text.len() % 2 != 0,
        e matches FromHexError::InvalidHexCharacter { c, index } ==> index < text.len() && (
        c as int) == text[index as int] as int && forall|i: int|
            0 <= i < index ==> is_hex_digit(#[trigger] text[i]),
{
}

} // verus!
