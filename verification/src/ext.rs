//! The trusted boundary: declarations and wrappers for the outside functions
//! the pipeline calls — JSON parsing from serde_json_wasm and base64 coding
//! from cosmwasm_std. Everything else in the crate is verified against the
//! contracts stated here.

use vstd::prelude::*;

verus! {

use crate::text::views_of;
use vstd::utf8::encode_utf8;

#[verifier::external_type_specification]
#[verifier::external_body]
pub struct ExDeError(serde_json_wasm::de::Error);

#[verifier::external_type_specification]
#[verifier::external_body]
pub struct ExStdError(cosmwasm_std::StdError);

#[verifier::external_type_specification]
#[verifier::external_body]
pub struct ExEmpty(cosmwasm_std::Empty);

#[verifier::external_type_specification]
#[verifier::external_body]
#[verifier::reject_recursive_types(T)]
pub struct ExCosmosMsg<T>(cosmwasm_std::CosmosMsg<T>);

/// The list of texts (as UTF-8 bytes) that a blob denotes when read as a JSON
/// array of strings; `None` when it cannot be read as one.
pub uninterp spec fn string_list_of(s: Seq<u8>) -> Option<Seq<Seq<u8>>>;

/// The text that a blob denotes when read as a single JSON string literal;
/// `None` when it cannot be read as one.
pub uninterp spec fn json_text_of(s: Seq<u8>) -> Option<Seq<char>>;

/// The bytes that a text denotes when read as standard-alphabet base64;
/// `None` when it is not valid base64.
pub uninterp spec fn base64_bytes_of(s: Seq<char>) -> Option<Seq<u8>>;

/// The padded standard-alphabet base64 rendering of some bytes, in UTF-8 form.
pub uninterp spec fn base64_text_of(b: Seq<u8>) -> Seq<u8>;

/// Whether a text parses as the dispatch layer's message type.
pub uninterp spec fn is_cosmos_text(s: Seq<u8>) -> bool;

/// Relies on serde_json_wasm::de::from_slice::<Vec<String>>: parses a whole
/// slice as a JSON array of strings. The strings are handed back as their
/// UTF-8 bytes.
#[verifier::external_body]
pub(crate) fn parse_string_list(s: &Vec<u8>) -> (r: Result<Vec<Vec<u8>>, serde_json_wasm::de::Error>)
    ensures
        r is Ok <==> string_list_of(s@) is Some,
        r matches Ok(l) ==> Some(views_of(l@)) == string_list_of(s@),
{
    match serde_json_wasm::de::from_slice::<Vec<String>>(s.as_slice()) {
        Ok(l) => Ok(l.into_iter().map(String::into_bytes).collect()),
        Err(e) => Err(e),
    }
}

/// Relies on serde_json_wasm::de::from_slice::<String>: parses a whole slice
/// as one JSON string literal (quotes and escapes) into the text it denotes.
/// The input holds the two quote bytes and at least one byte per produced
/// character, so on success the text's UTF-8 form is shorter than the input
/// by at least two bytes.
#[verifier::external_body]
pub(crate) fn parse_quoted(s: &Vec<u8>) -> (r: Result<String, serde_json_wasm::de::Error>)
    ensures
        r is Ok <==> json_text_of(s@) is Some,
        r matches Ok(t) ==> Some(t@) == json_text_of(s@),
        r matches Ok(t) ==> encode_utf8(t@).len() + 2 <= s@.len(),
{
    serde_json_wasm::de::from_slice::<String>(s.as_slice())
}

/// Relies on cosmwasm_std::Binary::from_base64: decodes standard-alphabet
/// base64, with or without padding. Base64 spends at least one input
/// character per output byte, so the result is never longer than the input's
/// UTF-8 form.
#[verifier::external_body]
pub(crate) fn decode_base64(s: &str) -> (r: Result<Vec<u8>, cosmwasm_std::StdError>)
    ensures
        r is Ok <==> base64_bytes_of(s@) is Some,
        r matches Ok(b) ==> Some(b@) == base64_bytes_of(s@),
        r matches Ok(b) ==> b@.len() <= encode_utf8(s@).len(),
{
    match cosmwasm_std::Binary::from_base64(s) {
        Ok(b) => Ok(b.0),
        Err(e) => Err(e),
    }
}

/// Relies on cosmwasm_std::Binary::to_base64: renders bytes as padded
/// standard-alphabet base64.
#[verifier::external_body]
pub(crate) fn encode_base64(b: &Vec<u8>) -> (r: Vec<u8>)
    ensures
        r@ == base64_text_of(b@),
{
    cosmwasm_std::Binary(b.clone()).to_base64().into_bytes()
}

/// Relies on serde_json_wasm::de::from_slice::<CosmosMsg>: parses a whole
/// slice as the dispatch layer's message type.
#[verifier::external_body]
pub(crate) fn parse_cosmos_msg(s: &Vec<u8>) -> (r: Result<
    cosmwasm_std::CosmosMsg,
    serde_json_wasm::de::Error,
>)
    ensures
        r is Ok <==> is_cosmos_text(s@),
{
    serde_json_wasm::de::from_slice::<cosmwasm_std::CosmosMsg>(s.as_slice())
}

} // verus!
