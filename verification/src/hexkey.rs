//! Keys of sixteen hexadecimal digits.

use rand::Rng;
use vstd::prelude::*;

use crate::table::TableKey;
use crate::text;

verus! {

/// A byte that spells a hexadecimal digit, in either case.
pub open spec fn is_hex_byte(byte: u8) -> bool {
    0x30 <= byte <= 0x39 || 0x41 <= byte <= 0x46 || 0x61 <= byte <= 0x66
}

/// A character that is a hexadecimal digit, in either case.
pub open spec fn is_hex_char(c: char) -> bool {
    '0' <= c <= '9' || 'A' <= c <= 'F' || 'a' <= c <= 'f'
}

/// The text of a key: sixteen hexadecimal digits.
pub open spec fn is_key_text(text: Seq<char>) -> bool {
    text.len() == 16 && forall|i: int| 0 <= i < text.len() ==> is_hex_char(#[trigger] text[i])
}

/// The lower-case hexadecimal digit for a number below sixteen.
pub open spec fn hex_char(digit: int) -> char {
    if digit < 10 {
        (48 + digit) as char
    } else {
        (87 + digit) as char
    }
}

/// Two lower-case hexadecimal digits for each byte, the high one first.
pub open spec fn hex_text(data: Seq<u8>) -> Seq<char> {
    Seq::new(
        2 * data.len(),
        |i: int|
            if i % 2 == 0 {
                hex_char(data[i / 2] as int / 16)
            } else {
                hex_char(data[i / 2] as int % 16)
            },
    )
}

/// The text of a key that was drawn at random: eight bytes in lower-case hexadecimal.
pub open spec fn is_drawn(text: Seq<char>) -> bool {
    exists|data: [u8; 8]| text == #[trigger] hex_text(data@)
}

/// `rand::thread_rng().gen()`: eight bytes from the thread's random number generator. Nothing is
/// said of them.
#[verifier::external_body]
pub(crate) fn random_bytes() -> [u8; 8] {
    rand::thread_rng().gen()
}

/// `hex::encode`: the bytes in lower-case hexadecimal, two digits each.
#[verifier::external_body]
pub(crate) fn hex_encode(data: &[u8; 8]) -> (text: String)
    ensures
        text@ == hex_text(data@),
{
    hex::encode(data)
}

/// Bytes that spell hexadecimal digits spell text of hexadecimal digits.
proof fn lemma_hex_bytes(bytes: Seq<u8>)
    requires
        forall|i: int| 0 <= i < bytes.len() ==> is_hex_byte(#[trigger] bytes[i]),
    ensures
        text::is_ascii_bytes(bytes),
        forall|i: int| 0 <= i < bytes.len() ==> is_hex_char(#[trigger] text::spelled(bytes)[i]),
{
    assert forall|i: int| 0 <= i < bytes.len() implies is_hex_char(
        #[trigger] text::spelled(bytes)[i],
    ) by {
        assert(is_hex_byte(bytes[i]));
    }
}

/// Text of hexadecimal digits is encoded byte by byte.
proof fn lemma_hex_chars(text: Seq<char>)
    requires
        forall|i: int| 0 <= i < text.len() ==> is_hex_char(#[trigger] text[i]),
    ensures
        vstd::utf8::encode_utf8(text).len() == text.len(),
        forall|i: int|
            0 <= i < text.len() ==> is_hex_byte(#[trigger] vstd::utf8::encode_utf8(text)[i]),
        text::spelled(vstd::utf8::encode_utf8(text)) == text,
{
    assert(vstd::utf8::is_ascii_chars(text));
    vstd::utf8::is_ascii_chars_encode_utf8(text);
    let bytes = vstd::utf8::encode_utf8(text);
    assert forall|i: int| 0 <= i < text.len() implies is_hex_byte(#[trigger] bytes[i]) by {
        assert(is_hex_char(text[i]));
    }
    assert(text::spelled(bytes) =~= text);
}

/// Encoded bytes are hexadecimal digits.
pub proof fn lemma_hex_text(data: Seq<u8>)
    ensures
        forall|i: int| 0 <= i < hex_text(data).len() ==> is_hex_char(#[trigger] hex_text(data)[i]),
{
}

/// Whether a byte spells a hexadecimal digit.
fn is_ascii_hexdigit(byte: u8) -> (result: bool)
    ensures
        result == is_hex_byte(byte),
{
    (0x30 <= byte && byte <= 0x39) || (0x41 <= byte && byte <= 0x46) || (0x61 <= byte && byte
        <= 0x66)
}

/// A key of sixteen hexadecimal digits.
#[derive(Hash, Copy, Clone)]
pub struct HexKey([u8; 16]);

impl View for HexKey {
    type V = Seq<char>;

    closed spec fn view(&self) -> Seq<char> {
        text::spelled(self.0@)
    }
}

impl HexKey {
    #[verifier::type_invariant]
    spec fn all_digits(self) -> bool {
        forall|i: int| 0 <= i < 16 ==> is_hex_byte(#[trigger] self.0@[i])
    }

    /// The key as text.
    pub fn as_str(&self) -> (text: &str)
        ensures
            text@ == self@,
            is_key_text(text@),
    {
        proof {
            use_type_invariant(self);
            lemma_hex_bytes(self.0@);
            text::lemma_ascii_bytes(self.0@);
        }
        core::str::from_utf8(&self.0).unwrap()
    }

    /// The key that `data` spells: `data` must be sixteen hexadecimal digits.
    pub fn validate(data: &str) -> (key: Result<Self, ()>)
        ensures
            key is Ok <==> is_key_text(data@),
            key matches Ok(key) ==> key@ == data@,
    {
        let bytes = data.as_bytes();
        proof {
            if is_key_text(data@) {
                lemma_hex_chars(data@);
            }
        }
        if bytes.len() != 16 {
            return Err(());
        }
        let mut digits: [u8; 16] = [0x30;16];
        let mut i: usize = 0;
        while i < 16
            invariant
                i <= 16,
                bytes@.len() == 16,
                bytes@ == vstd::utf8::encode_utf8(data@),
                is_key_text(data@) ==> forall|j: int|
                    0 <= j < 16 ==> is_hex_byte(#[trigger] bytes@[j]),
                forall|j: int| 0 <= j < i ==> digits@[j] == bytes@[j],
                forall|j: int| 0 <= j < 16 ==> is_hex_byte(#[trigger] digits@[j]),
            decreases 16 - i,
        {
            let byte = bytes[i];
            if !is_ascii_hexdigit(byte) {
                assert(!is_hex_byte(bytes@[i as int]));
                return Err(());
            }
            digits[i] = byte;
            i += 1;
        }
        proof {
            assert(digits@ =~= bytes@);
            lemma_hex_bytes(bytes@);
            text::lemma_ascii_bytes(bytes@);
        }
        Ok(HexKey(digits))
    }

    /// The key that eight bytes make in hexadecimal.
    pub fn from_bytes(data: [u8; 8]) -> (key: Self)
        ensures
            key@ == hex_text(data@),
            is_key_text(key@),
    {
        let text = hex_encode(&data);
        proof {
            lemma_hex_text(data@);
        }
        Self::validate(text.as_str()).unwrap()
    }

    /// A key of random digits.
    pub fn new() -> (key: Self)
        ensures
            is_drawn(key@),
            is_key_text(key@),
    {
        Self::from_bytes(random_bytes())
    }
}

/// Keys are told apart by their text.
pub proof fn law_same_text_same_key(a: HexKey, b: HexKey)
    ensures
        a@ == b@ <==> a == b,
{
    if a@ == b@ {
        assert forall|i: int| 0 <= i < 16 implies a.0@[i] == b.0@[i] by {
            assert(text::spelled(a.0@)[i] == text::spelled(b.0@)[i]);
            let x = a.0@[i];
            let y = b.0@[i];
            assert(x as char == y as char ==> x == y);
        }
        assert(a.0 =~= b.0);
    }
}

impl TableKey for HexKey {
    fn same(&self, other: &Self) -> (result: bool) {
        let mut i: usize = 0;
        while i < 16
            invariant
                i <= 16,
                forall|j: int| 0 <= j < i ==> self.0@[j] == other.0@[j],
            decreases 16 - i,
        {
            if self.0[i] != other.0[i] {
                return false;
            }
            i += 1;
        }
        assert(self.0@ =~= other.0@);
        assert(self.0 =~= other.0);
        true
    }
}

impl PartialEq for HexKey {
    fn eq(&self, other: &Self) -> (result: bool) {
        self.same(other)
    }
}

impl vstd::std_specs::cmp::PartialEqSpecImpl for HexKey {
    open spec fn obeys_eq_spec() -> bool {
        true
    }

    open spec fn eq_spec(&self, other: &Self) -> bool {
        *self == *other
    }
}

impl Eq for HexKey {

}

} // verus!
