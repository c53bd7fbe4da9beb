//! The codecs that a body is converted with: UTF-8 from the standard
//! library, JSON from `serde_json`, form encoding from `serde_urlencoded`.
//! Nothing of them is proved here: each function of this file states what
//! the codec is taken to do.

use vstd::prelude::*;
use vstd::utf8::{encode_utf8, valid_utf8};

verus! {

/// A JSON value of `serde_json`, carried through as it is.
#[verifier::external_type_specification]
#[verifier::external_body]
pub struct ExJsonValue(serde_json::Value);

/// The failure of `serde_json`.
#[verifier::external_type_specification]
#[verifier::external_body]
pub struct ExJsonError(serde_json::Error);

/// The failure of the encoder of `serde_urlencoded`.
#[verifier::external_type_specification]
#[verifier::external_body]
pub struct ExFormEncodeError(serde_urlencoded::ser::Error);

/// The failure of the decoder of `serde_urlencoded`.
#[verifier::external_type_specification]
#[verifier::external_body]
pub struct ExFormDecodeError(serde_urlencoded::de::Error);

/// What a JSON value holds: the text that `serde_json::to_vec` writes for
/// it.
pub uninterp spec fn json_text(value: serde_json::Value) -> Seq<u8>;

/// What the value holds that `serde_json::from_slice` reads from a text;
/// none where it fails.
pub uninterp spec fn json_read(input: Seq<u8>) -> Option<Seq<u8>>;

/// The text that `serde_urlencoded::to_string` writes for a list of pairs;
/// none where it fails.
pub uninterp spec fn form_text(pairs: Seq<(Seq<char>, Seq<char>)>) -> Option<Seq<char>>;

/// The list of pairs that `serde_urlencoded::from_str` reads from a text;
/// none where it fails.
pub uninterp spec fn form_pairs(input: Seq<char>) -> Option<Seq<(Seq<char>, Seq<char>)>>;

/// `String::from_utf8`: succeeds exactly on valid UTF-8, and the text it
/// gives is the one that these bytes encode.
#[verifier::external_body]
pub(crate) fn text_from_utf8(bytes: Vec<u8>) -> (string: Option<String>)
    ensures
        string is Some <==> valid_utf8(bytes@),
        string matches Some(s) ==> encode_utf8(s@) == bytes@,
{
    String::from_utf8(bytes).ok()
}

/// `serde_json::to_vec` on a `Value`: it succeeds, and the same value
/// always gives the same text. A value is made of nulls, booleans, numbers,
/// texts, lists and maps with texts as keys, and the encoder writes each of
/// them (a number that is no finite one as `null`); it fails only where its
/// writer does, and the writer here is a vector.
#[verifier::external_body]
pub(crate) fn json_to_vec(value: &serde_json::Value) -> (encoded: Result<
    Vec<u8>,
    serde_json::Error,
>)
    ensures
        encoded is Ok,
        encoded matches Ok(bytes) ==> bytes@ == json_text(*value),
{
    serde_json::to_vec(value)
}

/// `serde_json::from_slice` for a `Value`: the same text always gives a
/// value that holds the same, or always fails. A text without any byte is
/// no JSON text: the parser reports the end of the input where it looks for
/// a value.
#[verifier::external_body]
pub(crate) fn json_from_slice(input: &[u8]) -> (parsed: Result<
    serde_json::Value,
    serde_json::Error,
>)
    ensures
        json_read(input@) == match parsed {
            Ok(value) => Some(json_text(value)),
            Err(_) => None,
        },
        input@.len() == 0 ==> parsed is Err,
{
    serde_json::from_slice(input)
}

/// `serde_urlencoded::to_string` on a list of pairs of texts: the same
/// pairs always give the same text, or always fail.
#[verifier::external_body]
pub(crate) fn form_to_string(pairs: &Vec<(String, String)>) -> (encoded: Result<
    String,
    serde_urlencoded::ser::Error,
>)
    ensures
        form_text(pairs.deep_view()) == match encoded {
            Ok(written) => Some(written@),
            Err(_) => None,
        },
{
    serde_urlencoded::to_string(pairs)
}

/// `serde_urlencoded::from_str` for a list of pairs of texts: the same text
/// always gives the same pairs, or always fails.
#[verifier::external_body]
pub(crate) fn form_from_str(input: &str) -> (parsed: Result<
    Vec<(String, String)>,
    serde_urlencoded::de::Error,
>)
    ensures
        form_pairs(input@) == match parsed {
            Ok(pairs) => Some(pairs.deep_view()),
            Err(_) => None,
        },
{
    serde_urlencoded::from_str(input)
}

} // verus!
