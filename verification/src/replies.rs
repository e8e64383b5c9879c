//! What requests are answered with.

use vstd::prelude::*;

use crate::failure::StatusCode;
use crate::hexkey;
use crate::keys::AsyncKey;

verus! {

/// The bytes in an optional list of bytes.
pub open spec fn optional(bytes: Option<Vec<u8>>) -> Option<Seq<u8>> {
    match bytes {
        Some(bytes) => Some(bytes@),
        None => None,
    }
}

/// A body that a task exported, and its content type, where it has one: the bytes of the header, as
/// they came.
pub struct TypedBody(pub Vec<u8>, pub Option<Vec<u8>>);

impl View for TypedBody {
    type V = (Seq<u8>, Option<Seq<u8>>);

    open spec fn view(&self) -> (Seq<u8>, Option<Seq<u8>>) {
        (self.0@, optional(self.1))
    }
}

/// The answer to a request that went well: its content type, where it has one, and its body.
pub struct Response {
    pub content_type: Option<Vec<u8>>,
    pub body: Vec<u8>,
}

impl View for Response {
    type V = (Option<Seq<u8>>, Seq<u8>);

    open spec fn view(&self) -> (Option<Seq<u8>>, Seq<u8>) {
        (optional(self.content_type), self.body@)
    }
}

/// An answer that mirrors what was exported, and is empty if nothing was.
pub open spec fn mirrored(export: Option<(Seq<u8>, Option<Seq<u8>>)>) -> (
    Option<Seq<u8>>,
    Seq<u8>,
) {
    match export {
        Some((body, mime)) => (mime, body),
        None => (None, Seq::empty()),
    }
}

impl TypedBody {
    /// The same body once more.
    pub fn copy(&self) -> (copy: Self)
        ensures
            copy@ == self@,
    {
        let body = self.0.clone();
        assert(body@ =~= self.0@);
        let mime = match &self.1 {
            Some(mime) => {
                let again = mime.clone();
                assert(again@ =~= mime@);
                Some(again)
            },
            None => None,
        };
        TypedBody(body, mime)
    }
}

impl Response {
    /// The answer that mirrors an export.
    pub fn mirror(export: Option<TypedBody>) -> (response: Self)
        ensures
            response@ == mirrored(
                match export {
                    Some(export) => Some(export@),
                    None => None,
                },
            ),
    {
        match export {
            Some(TypedBody(body, mime)) => Response { content_type: mime, body },
            None => {
                let response = Response { content_type: None, body: Vec::new() };
                assert(response@.1 =~= Seq::<u8>::empty());
                response
            },
        }
    }

    /// The contents of a file, without a content type.
    pub fn file(contents: Vec<u8>) -> (response: Self)
        ensures
            response@ == (None::<Seq<u8>>, contents@),
    {
        Response { content_type: None, body: contents }
    }
}

/// What an import of a file came to: the file failed, or it ran and exported something or nothing.
pub type CacheEntry = Result<Option<TypedBody>, StatusCode>;

/// The contents of a cache entry.
pub open spec fn entry_view(entry: CacheEntry) -> Result<
    Option<(Seq<u8>, Option<Seq<u8>>)>,
    StatusCode,
> {
    match entry {
        Ok(Some(export)) => Ok(Some(export@)),
        Ok(None) => Ok(None),
        Err(status) => Err(status),
    }
}

/// What a task came to, for whoever awaits it: an answer, or a refusal.
pub type Outcome = Result<Response, StatusCode>;

/// The contents of an outcome.
pub open spec fn outcome_view(outcome: Outcome) -> Result<
    (Option<Seq<u8>>, Seq<u8>),
    StatusCode,
> {
    match outcome {
        Ok(response) => Ok(response@),
        Err(status) => Err(status),
    }
}

/// The contents of an outcome, once there is one.
pub open spec fn ended_view(ended: Option<Outcome>) -> Option<
    Result<(Option<Seq<u8>>, Seq<u8>), StatusCode>,
> {
    match ended {
        Some(outcome) => Some(outcome_view(outcome)),
        None => None,
    }
}

/// Text that stands in JSON as it is.
pub open spec fn json_plain(text: Seq<char>) -> bool {
    forall|i: int|
        0 <= i < text.len() ==> ' ' <= #[trigger] text[i] && text[i] != '"' && text[i] != '\\'
}

/// A JSON object with one member, a string.
pub open spec fn json_object(name: Seq<char>, value: Seq<char>) -> Seq<char> {
    "{\""@ + name + "\":\""@ + value + "\"}"@
}

/// `serde_json::to_string` of a map with one entry: the compact JSON object. Asked only for text
/// that needs no escapes.
#[verifier::external_body]
fn json_text(name: &str, value: &str) -> (json: String)
    requires
        json_plain(name@),
        json_plain(value@),
    ensures
        json@ == json_object(name@, value@),
{
    serde_json::to_string(&std::collections::BTreeMap::from([(name, value)])).unwrap()
}

/// An answer that is a JSON object with one member.
pub open spec fn json_reply(name: Seq<char>, value: Seq<char>) -> (Option<Seq<u8>>, Seq<u8>) {
    (
        Some(vstd::utf8::encode_utf8("application/json"@)),
        vstd::utf8::encode_utf8(json_object(name, value)),
    )
}

/// Writes an answer that is a JSON object with one member.
fn json_response(name: &str, value: &str) -> (response: Response)
    requires
        json_plain(name@),
        json_plain(value@),
    ensures
        response@ == json_reply(name@, value@),
{
    let json = json_text(name, value);
    Response {
        content_type: Some("application/json".as_bytes_vec()),
        body: json.as_str().as_bytes_vec(),
    }
}

/// The answer to a request that started a task: the key to wait for it under.
pub fn await_response(key: &AsyncKey) -> (response: Response)
    ensures
        response@ == json_reply("await"@, key@),
{
    proof {
        reveal_strlit("await");
    }
    let text = key.as_str();
    json_response("await", text)
}

/// The answer to a request for noise, made of eight bytes.
pub fn noise_response(data: [u8; 8]) -> (response: Response)
    ensures
        response@ == json_reply("noise"@, hexkey::hex_text(data@)),
{
    let text = hexkey::hex_encode(&data);
    proof {
        reveal_strlit("noise");
        hexkey::lemma_hex_text(data@);
        assert forall|i: int| 0 <= i < text@.len() implies ' ' <= #[trigger] text@[i] && text@[i]
            != '"' && text@[i] != '\\' by {
            assert(hexkey::is_hex_char(hexkey::hex_text(data@)[i]));
        }
    }
    json_response("noise", text.as_str())
}

/// The answer to a request for noise: sixteen random hexadecimal digits.
pub fn noise() -> (response: Response)
    ensures
        exists|data: [u8; 8]|
            response@ == json_reply("noise"@, #[trigger] hexkey::hex_text(data@)),
{
    noise_response(hexkey::random_bytes())
}

} // verus!
