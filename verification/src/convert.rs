//! Taking a body apart: into bytes, into text, into a JSON value, into
//! form pairs; and making one from a JSON value or from form pairs.

use vstd::prelude::*;
use vstd::slice::slice_subrange;
use vstd::std_specs::convert::FromSpecImpl;
use vstd::string::StrSliceExecFns;
use vstd::utf8::{decode_utf8, encode_utf8, valid_utf8};
use crate::body::Body;
use crate::codec::{
    form_from_str, form_pairs, form_text, form_to_string, json_from_slice, json_read, json_text,
    json_to_vec, text_from_utf8,
};
use crate::error::BodyError;
use crate::mime::{Mime, FORM, JSON};
use crate::progress::Progress;
use crate::view::BodyView;

verus! {

/// The size of the buffer that a body is drained with.
pub const CHUNK: usize = 1024;

/// A body that holds an encoded document: its declared length is the
/// number of the bytes, and nothing is read yet.
pub open spec fn document(bytes: Seq<u8>, mime: Seq<char>) -> BodyView {
    BodyView {
        source: bytes,
        mime: Some(mime),
        progress: Progress { length: Some(bytes.len() as u64), bytes_read: 0 },
    }
}

/// Whether a declared length can be the size of a buffer in memory. An
/// undeclared length counts as 0.
pub open spec fn fits(length: Option<u64>) -> bool {
    match length {
        Some(l) => l <= usize::MAX,
        None => true,
    }
}

/// What the conversion of a body into text gives: a length that does not
/// fit is refused before anything is read; else all pending bytes are taken
/// as UTF-8.
pub open spec fn text_of(body: BodyView, result: Result<String, BodyError>) -> bool {
    match result {
        Ok(text) => fits(body.progress.length) && encode_utf8(text@) == body.pending(),
        Err(e) => if !fits(body.progress.length) {
            e == BodyError::Size
        } else {
            e == BodyError::Utf8 && !valid_utf8(body.pending())
        },
    }
}

impl Body {
    /// Reads with bounded reads until nothing is pending, and appends what
    /// comes to `out`.
    pub fn read_to_end(&mut self, out: &mut Vec<u8>)
        requires
            old(self).wf(),
        ensures
            final(self).wf(),
            final(out)@ == old(out)@ + old(self)@.pending(),
            final(self)@ == old(self)@.after_read(old(self)@.pending().len()),
            final(self)@.pending().len() == 0,
    {
        let mut chunk: Vec<u8> = vec![0u8; CHUNK];
        let ghost start = self@;
        let ghost mut done: nat = 0;
        proof {
            old(self).lemma_run();
            start.lemma_after_read(0);
            assert(out@ =~= old(out)@ + start.pending().take(0));
        }
        loop
            invariant
                self.wf(),
                start.wf(),
                chunk@.len() == CHUNK,
                done <= start.pending().len(),
                self@ == start.after_read(done),
                out@ == old(out)@ + start.pending().take(done as int),
            ensures
                done == start.pending().len(),
            decreases start.pending().len() - done,
        {
            let ghost before = self@;
            let ghost sofar = out@;
            proof {
                start.lemma_after_read(done);
            }
            let n = self.read(chunk.as_mut_slice());
            if n == 0 {
                proof {
                    before.lemma_after_read(0);
                }
                break;
            }
            let part = slice_subrange(chunk.as_slice(), 0, n);
            assert(part@ =~= before.pending().take(n as int));
            out.extend_from_slice(part);
            proof {
                assert(out@ =~= sofar + part@);
                start.lemma_after_read_add(done, n as nat);
                done = done + n as nat;
            }
        }
        proof {
            assert(start.pending().take(done as int) =~= start.pending());
        }
    }

    /// All pending bytes.
    pub fn into_bytes(self) -> (result: Result<Vec<u8>, BodyError>)
        requires
            self.wf(),
        ensures
            result matches Ok(bytes) && bytes@ == self@.pending(),
    {
        let mut body = self;
        let mut out: Vec<u8> = Vec::with_capacity(CHUNK);
        body.read_to_end(&mut out);
        assert(out@ =~= self@.pending());
        Ok(out)
    }

    /// All pending bytes, as text. Fails with [`BodyError::Size`], before
    /// anything is read, where the declared length does not fit the size
    /// type, and with [`BodyError::Utf8`] where the bytes are not valid UTF-8.
    pub fn into_string(self) -> (result: Result<String, BodyError>)
        requires
            self.wf(),
        ensures
            text_of(self@, result),
    {
        let hint = match size_hint(self.len()) {
            Ok(hint) => hint,
            Err(e) => {
                return Err(e);
            },
        };
        let mut body = self;
        let mut out: Vec<u8> = Vec::new();
        let _ = out.try_reserve(hint);
        body.read_to_end(&mut out);
        assert(out@ =~= self@.pending());
        text(out)
    }

    /// The body for the outcome of a JSON encoder: the text with the JSON
    /// type, or [`BodyError::Encode`].
    pub fn json_encoded(encoded: Result<Vec<u8>, serde_json::Error>) -> (result: Result<
        Body,
        BodyError,
    >)
        ensures
            match result {
                Ok(body) => encoded matches Ok(bytes) && bytes@.len() <= usize::MAX && body.wf()
                    && body.source().plain() && body@ == document(bytes@, JSON@),
                Err(e) => encoded is Err && e == BodyError::Encode,
            },
    {
        match encoded {
            Ok(bytes) => {
                let mut body = Body::from_bytes(bytes);
                body.set_mime(Some(Mime::json()));
                Ok(body)
            },
            Err(_) => Err(BodyError::Encode),
        }
    }

    /// The body for the outcome of a form encoder: the text with the form
    /// type, or [`BodyError::Encode`].
    pub fn form_encoded(encoded: Result<String, serde_urlencoded::ser::Error>) -> (result: Result<
        Body,
        BodyError,
    >)
        ensures
            match result {
                Ok(body) => encoded matches Ok(text) && encode_utf8(text@).len() <= usize::MAX
                    && body.wf() && body.source().plain() && body@ == document(
                    encode_utf8(text@),
                    FORM@,
                ),
                Err(e) => encoded is Err && e == BodyError::Encode,
            },
    {
        match encoded {
            Ok(text) => {
                let mut body = Body::from_bytes(text.as_str().as_bytes_vec());
                body.set_mime(Some(Mime::form()));
                Ok(body)
            },
            Err(_) => Err(BodyError::Encode),
        }
    }

    /// A body that holds a value as JSON text. The encoder writes every
    /// value, so this succeeds.
    pub fn from_json(json: &serde_json::Value) -> (result: Result<Body, BodyError>)
        ensures
            result is Ok,
            match result {
                Ok(body) => json_text(*json).len() <= usize::MAX && body.wf()
                    && body.source().plain() && body@ == document(json_text(*json), JSON@),
                Err(e) => e == BodyError::Encode,
            },
    {
        Body::json_encoded(json_to_vec(json))
    }

    /// A body that holds a list of pairs in form encoding.
    pub fn from_form(form: &Vec<(String, String)>) -> (result: Result<Body, BodyError>)
        ensures
            match result {
                Ok(body) => form_text(form.deep_view()) matches Some(text) && encode_utf8(
                    text,
                ).len() <= usize::MAX && body.wf() && body.source().plain() && body@ == document(
                    encode_utf8(text),
                    FORM@,
                ),
                Err(e) => form_text(form.deep_view()) is None && e == BodyError::Encode,
            },
    {
        Body::form_encoded(form_to_string(form))
    }

    /// All pending bytes, read as a JSON value. Fails with
    /// [`BodyError::Decode`] where they are no JSON text; a body with nothing
    /// pending is none.
    pub fn into_json(self) -> (result: Result<serde_json::Value, BodyError>)
        requires
            self.wf(),
        ensures
            match result {
                Ok(value) => json_read(self@.pending()) == Some(json_text(value)),
                Err(e) => json_read(self@.pending()) is None && e == BodyError::Decode,
            },
            self@.pending().len() == 0 ==> result is Err,
    {
        let mut body = self;
        let mut out: Vec<u8> = Vec::with_capacity(CHUNK);
        body.read_to_end(&mut out);
        assert(out@ =~= self@.pending());
        decoded(json_from_slice(out.as_slice()))
    }

    /// All pending bytes, read as a list of pairs in form encoding. Fails as
    /// [`Body::into_string`] does, and with [`BodyError::Decode`] where the text
    /// is no list of pairs.
    pub fn into_form(self) -> (result: Result<Vec<(String, String)>, BodyError>)
        requires
            self.wf(),
        ensures
            match result {
                Ok(pairs) => fits(self@.progress.length) && valid_utf8(self@.pending())
                    && form_pairs(decode_utf8(self@.pending())) == Some(pairs.deep_view()),
                Err(e) => if !fits(self@.progress.length) {
                    e == BodyError::Size
                } else if !valid_utf8(self@.pending()) {
                    e == BodyError::Utf8
                } else {
                    e == BodyError::Decode && form_pairs(decode_utf8(self@.pending())) is None
                },
            },
    {
        match self.into_string() {
            Ok(text) => {
                proof {
                    vstd::utf8::encode_utf8_decode_utf8(text@);
                    vstd::utf8::encode_utf8_valid_utf8(text@);
                }
                decoded(form_from_str(text.as_str()))
            },
            Err(e) => Err(e),
        }
    }
}

impl From<serde_json::Value> for Body {
    /// As [`Body::from_json`].
    fn from(json_value: serde_json::Value) -> (body: Body)
        ensures
            json_text(json_value).len() <= usize::MAX,
            body.wf(),
            body.source().plain(),
            body@ == document(json_text(json_value), JSON@),
    {
        Body::from_json(&json_value).unwrap()
    }
}

impl FromSpecImpl<serde_json::Value> for Body {
    open spec fn obeys_from_spec() -> bool {
        false
    }

    open spec fn from_spec(json_value: serde_json::Value) -> Body {
        arbitrary()
    }
}

/// The size to set a buffer up with for a body of the declared length: 0
/// where none is declared. Fails with [`BodyError::Size`] where the length
/// does not fit the size type.
pub fn size_hint(length: Option<u64>) -> (result: Result<usize, BodyError>)
    ensures
        result == if fits(length) {
            Ok::<usize, BodyError>(
                match length {
                    Some(l) => l as usize,
                    None => 0,
                },
            )
        } else {
            Err(BodyError::Size)
        },
{
    match length {
        None => Ok(0),
        Some(l) => {
            if l > usize::MAX as u64 {
                Err(BodyError::Size)
            } else {
                Ok(l as usize)
            }
        },
    }
}

/// The text that the bytes encode. Fails with [`BodyError::Utf8`] where
/// they are not valid UTF-8.
pub fn text(bytes: Vec<u8>) -> (result: Result<String, BodyError>)
    ensures
        match result {
            Ok(text) => valid_utf8(bytes@) && encode_utf8(text@) == bytes@,
            Err(e) => !valid_utf8(bytes@) && e == BodyError::Utf8,
        },
{
    match text_from_utf8(bytes) {
        Some(text) => Ok(text),
        None => Err(BodyError::Utf8),
    }
}

/// The outcome of a decoder, with its failure reported as
/// [`BodyError::Decode`].
pub fn decoded<T, E>(outcome: Result<T, E>) -> (result: Result<T, BodyError>)
    ensures
        result == match outcome {
            Ok(value) => Ok::<T, BodyError>(value),
            Err(_) => Err(BodyError::Decode),
        },
{
    match outcome {
        Ok(value) => Ok(value),
        Err(_) => Err(BodyError::Decode),
    }
}

} // verus!
