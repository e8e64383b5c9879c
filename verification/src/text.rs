//! Values that have a textual form.

use vstd::prelude::*;

verus! {

/// A value with a textual form.
pub trait Render {
    /// The text that stands for the value.
    spec fn rendered(&self) -> Seq<char>;

    /// Writes the text that stands for the value.
    fn render(&self) -> (text: String)
        ensures
            text@ == self.rendered(),
    ;
}

impl Render for String {
    open spec fn rendered(&self) -> Seq<char> {
        self@
    }

    fn render(&self) -> (text: String) {
        self.clone()
    }
}

impl<'a> Render for &'a str {
    open spec fn rendered(&self) -> Seq<char> {
        (*self)@
    }

    fn render(&self) -> (text: String) {
        (*self).to_owned()
    }
}

impl Render for u64 {
    open spec fn rendered(&self) -> Seq<char> {
        decimal(*self as nat)
    }

    fn render(&self) -> (text: String) {
        decimal_text(*self)
    }
}

/// The character for a digit below ten.
pub open spec fn digit_char(digit: nat) -> char {
    (48 + digit) as char
}

/// `n` in decimal, without leading zeros.
pub open spec fn decimal(n: nat) -> Seq<char>
    decreases n,
{
    if n < 10 {
        seq![digit_char(n)]
    } else {
        decimal(n / 10).push(digit_char(n % 10))
    }
}

/// One digit as text.
fn digit_text(digit: u64) -> (text: &'static str)
    requires
        digit < 10,
    ensures
        text@ == seq![digit_char(digit as nat)],
{
    proof {
        reveal_strlit("0");
        reveal_strlit("1");
        reveal_strlit("2");
        reveal_strlit("3");
        reveal_strlit("4");
        reveal_strlit("5");
        reveal_strlit("6");
        reveal_strlit("7");
        reveal_strlit("8");
        reveal_strlit("9");
    }
    match digit {
        0 => "0",
        1 => "1",
        2 => "2",
        3 => "3",
        4 => "4",
        5 => "5",
        6 => "6",
        7 => "7",
        8 => "8",
        _ => "9",
    }
}

/// Writes `n` in decimal.
pub fn decimal_text(n: u64) -> (text: String)
    ensures
        text@ == decimal(n as nat),
    decreases n,
{
    let mut text = if n < 10 {
        String::new()
    } else {
        decimal_text(n / 10)
    };
    text.append(digit_text(n % 10));
    text
}

/// The text in an optional string.
pub open spec fn optional(text: Option<String>) -> Option<Seq<char>> {
    match text {
        Some(text) => Some(text@),
        None => None,
    }
}

/// The texts in a list of strings.
pub open spec fn texts(list: Seq<String>) -> Seq<Seq<char>> {
    list.map_values(|text: String| text@)
}

/// Adding a string to a list adds its text to the texts.
pub broadcast proof fn lemma_texts_push(list: Seq<String>, text: String)
    ensures
        #[trigger] texts(list.push(text)) == texts(list).push(text@),
{
    assert(texts(list.push(text)) =~= texts(list).push(text@));
}

/// `std`'s error for bytes that are not UTF-8.
#[verifier::external_type_specification]
#[verifier::external_body]
pub struct ExUtf8Error(core::str::Utf8Error);

/// `core::str::from_utf8`: the text whose UTF-8 encoding the bytes are, and an error where they
/// are not UTF-8.
pub assume_specification[ core::str::from_utf8 ](v: &[u8]) -> (decoded: Result<
    &str,
    core::str::Utf8Error,
>)
    ensures
        decoded is Ok <==> vstd::utf8::valid_utf8(v@),
        decoded matches Ok(s) ==> vstd::utf8::encode_utf8(s@) == v@,
;

/// Bytes that are ASCII.
pub open spec fn is_ascii_bytes(bytes: Seq<u8>) -> bool {
    forall|i: int| 0 <= i < bytes.len() ==> #[trigger] bytes[i] < 0x80
}

/// The text that ASCII bytes spell.
pub open spec fn spelled(bytes: Seq<u8>) -> Seq<char> {
    bytes.map_values(|byte: u8| byte as char)
}

/// ASCII bytes are the UTF-8 encoding of the text that they spell, and of no other text.
pub proof fn lemma_ascii_bytes(bytes: Seq<u8>)
    requires
        is_ascii_bytes(bytes),
    ensures
        vstd::utf8::valid_utf8(bytes),
        vstd::utf8::encode_utf8(spelled(bytes)) == bytes,
        forall|text: Seq<char>|
            #[trigger] vstd::utf8::encode_utf8(text) == bytes ==> text == spelled(bytes),
{
    let chars = spelled(bytes);
    assert(vstd::utf8::is_ascii_chars(chars));
    vstd::utf8::is_ascii_chars_encode_utf8(chars);
    assert(vstd::utf8::encode_utf8(chars) =~= bytes);
    vstd::utf8::encode_utf8_valid_utf8(chars);
    assert forall|text: Seq<char>| #[trigger] vstd::utf8::encode_utf8(text) == bytes implies text
        == chars by {
        vstd::utf8::encode_utf8_decode_utf8(text);
        vstd::utf8::encode_utf8_decode_utf8(chars);
    }
}

/// Writes one text after another.
pub fn concat2(a: &str, b: &str) -> (text: String)
    ensures
        text@ == a@ + b@,
{
    let mut text = a.to_owned();
    text.append(b);
    text
}

} // verus!
