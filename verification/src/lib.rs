//! Slice-based lexer for the head of an HTTP/1.x request.
//!
//! The crate splits the leading portion of a request byte stream into its
//! structural components: the request-line (method, target, version) and the
//! run of header fields terminated by an empty line.  Only delimiter-based
//! segmentation is performed — CRLF boundaries, the single-space separators of
//! the request-line, and the first colon of each header line.  Token grammar,
//! charset semantics and body framing are left to higher layers.
//!
//! Every value handed out is a borrowed view into the caller's buffer; the
//! crate never copies or allocates, and parsing is fully restartable: a
//! [`Error::Partial`] outcome means "retry the same call once more bytes have
//! been buffered".

use vstd::prelude::*;

pub mod headers;
pub mod reqline;
pub mod scan;
pub mod text;

pub use headers::{Header, Headers};
pub use reqline::RequestLine;
pub use scan::{check_crlf, next_line, skip_empty_lines};

verus! {

/// Errors that may occur while splitting a request head.
#[derive(Copy, Clone, Eq, PartialEq, Debug)]
pub enum Error {
    /// Not enough bytes are buffered yet to resolve the current structural
    /// unit; retry with a longer buffer.
    Partial,
    /// The bytes present violate the expected delimiter structure; more bytes
    /// cannot repair the parse.
    Syntax,
}

/// Specialized result using the crate's [`Error`].
pub type Result<T> = core::result::Result<T, Error>;

} // verus!
