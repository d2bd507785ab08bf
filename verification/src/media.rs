//! Base64 payloads and the data URIs built from them.
use base64::engine::general_purpose::STANDARD;
use base64::Engine;
use vstd::prelude::*;
use vstd::string::*;

verus! {

/// The standard base64 form of bytes, with padding: what
/// `base64::engine::general_purpose::STANDARD` encodes them to.
pub uninterp spec fn base64_text(bytes: Seq<u8>) -> Seq<char>;

/// The bytes that `base64::engine::general_purpose::STANDARD` decodes a text
/// to, if it accepts the text.
pub uninterp spec fn base64_bytes(text: Seq<char>) -> Option<Seq<u8>>;

/// Calls `encode` of the standard base64 engine. The text is a function of
/// the bytes.
#[verifier::external_body]
pub(crate) fn encode_base64(bytes: &[u8]) -> (text: String)
    ensures
        text@ == base64_text(bytes@),
{
    STANDARD.encode(bytes)
}

/// Calls `decode` of the standard base64 engine. The outcome is a function of
/// the text; the reason of a failure is dropped.
#[verifier::external_body]
pub(crate) fn decode_base64(text: &str) -> (bytes: Option<Vec<u8>>)
    ensures
        match bytes {
            Some(b) => base64_bytes(text@) == Some(b@),
            None => base64_bytes(text@) is None,
        },
{
    STANDARD.decode(text).ok()
}

/// The data URI of a payload.
pub open spec fn data_uri(media_type: Seq<char>, data: Seq<u8>) -> Seq<char> {
    "data:"@ + media_type + ";base64,"@ + base64_text(data)
}

/// The data URI of a payload.
pub fn to_data_uri(media_type: &str, data: &[u8]) -> (uri: String)
    ensures
        uri@ == data_uri(media_type@, data@),
{
    let mut uri = "data:".to_owned();
    uri.append(media_type);
    uri.append(";base64,");
    uri.append(encode_base64(data).as_str());
    uri
}

} // verus!
