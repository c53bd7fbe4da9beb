//! A streaming message body: a byte source together with a declared length,
//! a media type and a count of the bytes handed out so far.
//!
//! A [`Body`] is read in two ways. The bounded read ([`Body::read`]) never
//! hands out more than the declared length, whatever the size of the
//! buffers, and counts what it hands out. The buffered peek
//! ([`Body::fill_buf`], [`Body::consume`]) goes to the source as it is and
//! counts nothing. Two bodies are chained into one ([`Body::chain`]) that
//! reads the first to its end and then the second.
//!
//! The sources of this crate are in memory. A reader that may make its
//! caller wait keeps only the bookkeeping of this crate ([`Progress`]): it
//! asks for the window of each read and reports what has come.
//!
//! - [`progress`]: the declared length, the count, the window of a read.
//! - [`mime`]: media types and the rules that pick one.
//! - [`cursor`]: a buffer that is read from front to back.
//! - [`view`]: what a body is to its reader.
//! - [`body`]: sources, chains and the body itself.
//! - [`convert`]: bodies from and into bytes, text, JSON and form pairs.
//! - [`codec`]: what the codecs are taken to do.
//! - [`error`]: failures and their statuses.
//! - [`laws`]: what holds of every body.

pub mod body;
pub mod codec;
pub mod convert;
pub mod cursor;
pub mod error;
pub mod laws;
pub mod mime;
pub mod progress;
pub mod view;

pub use body::{Body, Chain, Source};
pub use convert::{decoded, size_hint, text};
pub use cursor::Cursor;
pub use error::{BodyError, StatusCode};
pub use mime::{chain_mime, file_mime, Mime, SNIFF_LEN};
pub use progress::Progress;
pub use view::BodyView;
