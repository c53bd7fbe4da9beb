//! Media types, as far as a body needs them: a text, compared letter for letter.

use vstd::prelude::*;
use vstd::std_specs::cmp::PartialEqSpecImpl;

verus! {

/// The fallback type of a body whose content is unknown.
pub const BYTE_STREAM: &'static str = "application/octet-stream";

/// The type of a body made from text.
pub const PLAIN: &'static str = "text/plain;charset=utf-8";

/// The type of a body that holds a JSON document.
pub const JSON: &'static str = "application/json";

/// The type of a body that holds form-encoded pairs.
pub const FORM: &'static str = "application/x-www-form-urlencoded";

/// The number of bytes at the start of a file that are looked at to tell
/// its type. Some archive formats show only that late what they are.
pub const SNIFF_LEN: usize = 300;

/// A media type. Its view is its text.
#[derive(Debug)]
pub struct Mime {
    text: String,
}

impl View for Mime {
    type V = Seq<char>;

    closed spec fn view(&self) -> Seq<char> {
        self.text@
    }
}

impl Mime {
    /// The media type with the given text.
    pub fn new(text: String) -> (m: Mime)
        ensures
            m@ == text@,
    {
        Mime { text }
    }

    /// The text of this media type.
    pub fn as_str(&self) -> (s: &str)
        ensures
            s@ == self@,
    {
        self.text.as_str()
    }

    /// `application/octet-stream`.
    pub fn byte_stream() -> (m: Mime)
        ensures
            m@ == BYTE_STREAM@,
    {
        Mime { text: BYTE_STREAM.to_owned() }
    }

    /// `text/plain` in UTF-8.
    pub fn plain() -> (m: Mime)
        ensures
            m@ == PLAIN@,
    {
        Mime { text: PLAIN.to_owned() }
    }

    /// `application/json`.
    pub fn json() -> (m: Mime)
        ensures
            m@ == JSON@,
    {
        Mime { text: JSON.to_owned() }
    }

    /// `application/x-www-form-urlencoded`.
    pub fn form() -> (m: Mime)
        ensures
            m@ == FORM@,
    {
        Mime { text: FORM.to_owned() }
    }
}

impl Clone for Mime {
    fn clone(&self) -> (m: Mime)
        ensures
            m@ == self@,
    {
        Mime { text: self.text.clone() }
    }
}

impl PartialEq for Mime {
    fn eq(&self, other: &Mime) -> (r: bool) {
        self.text == other.text
    }
}

impl Eq for Mime {

}

impl PartialEqSpecImpl for Mime {
    open spec fn obeys_eq_spec() -> bool {
        true
    }

    open spec fn eq_spec(&self, other: &Mime) -> bool {
        self@ == other@
    }
}

/// The view of an optional media type: the text, where there is one.
pub open spec fn mime_view(mime: Option<Mime>) -> Option<Seq<char>> {
    match mime {
        Some(m) => Some(m@),
        None => None,
    }
}

/// The media type of a body made from a file: what the content shows comes
/// first, what the name suggests second, and the byte-stream type last.
pub open spec fn file_mime_view(sniffed: Option<Mime>, guessed: Option<Mime>) -> Seq<char> {
    match sniffed {
        Some(m) => m@,
        None => match guessed {
            Some(m) => m@,
            None => BYTE_STREAM@,
        },
    }
}

/// Picks the media type of a body made from a file. `sniffed` is what the
/// first bytes of the content gave, `guessed` what the extension of the
/// path gave.
pub fn file_mime(sniffed: Option<Mime>, guessed: Option<Mime>) -> (m: Mime)
    ensures
        m@ == file_mime_view(sniffed, guessed),
{
    match sniffed {
        Some(m) => m,
        None => match guessed {
            Some(m) => m,
            None => Mime::byte_stream(),
        },
    }
}

/// The media type of two bodies read one after the other: the common type
/// where both agree (also where neither has one), else the byte-stream type.
pub open spec fn chain_mime_view(first: Option<Seq<char>>, second: Option<Seq<char>>) -> Option<
    Seq<char>,
> {
    if first == second {
        first
    } else {
        Some(BYTE_STREAM@)
    }
}

/// Picks the media type of two bodies read one after the other.
pub fn chain_mime(first: &Option<Mime>, second: &Option<Mime>) -> (m: Option<Mime>)
    ensures
        mime_view(m) == chain_mime_view(mime_view(*first), mime_view(*second)),
{
    match (first, second) {
        (None, None) => None,
        (Some(a), Some(b)) => {
            if a == b {
                Some(a.clone())
            } else {
                Some(Mime::byte_stream())
            }
        },
        _ => Some(Mime::byte_stream()),
    }
}

} // verus!
