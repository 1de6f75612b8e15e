//! The header cursor: a view of the yet-unparsed bytes that, on each
//! advance, yields one parsed header field or signals end-of-headers, and
//! hands back the unconsumed remainder once released.

use vstd::prelude::*;
use vstd::slice::slice_subrange;
use vstd::utf8::{decode_utf8, valid_utf8};
use crate::Error;
use crate::scan::{
    CR, LF, find_byte, find_first, lemma_find_first_absent, lemma_find_first_unique,
    lemma_next_line_reconstruct, next_line, spec_next_line,
};
use crate::text::{bytes_to_str, trim_ascii, trim_ascii_ws};

verus! {

/// The colon byte, the separator between a header's name and value.
pub const COLON: u8 = 58;

/// An HTTP request header field.
#[derive(Copy, Clone, Eq, PartialEq, Debug, Hash)]
pub struct Header<'a> {
    /// Header name, with surrounding ASCII whitespace trimmed.
    ///
    /// Guaranteed non-empty, but not guaranteed free of internal whitespace
    /// or otherwise syntactically correct.
    pub name: &'a str,
    /// Raw header value: everything past the line's first colon, verbatim.
    pub val: &'a [u8],
}

/// Iterator over all header fields in a request.
pub struct Headers<'a> {
    /// The bytes the cursor has not consumed yet; once the header section has
    /// ended, the body prefix.
    rem: &'a [u8],
    /// Whether the empty line ending the header section has been consumed.
    done: bool,
}

impl<'a> View for Headers<'a> {
    type V = Seq<u8>;

    /// The bytes the cursor has not consumed yet.
    closed spec fn view(&self) -> Seq<u8> {
        self.rem@
    }
}

/// Outcome of one advance of the header cursor over the bytes `s`.
pub ghost enum HeaderStep {
    /// More bytes are needed before the next line resolves; nothing is
    /// consumed.
    Partial,
    /// The line terminator itself is malformed; nothing is consumed.
    Syntax,
    /// An empty line: end of the header section.  `rest` is the body prefix.
    End { rest: Seq<u8> },
    /// A line was consumed — `rest` starts past its CRLF — but it is not a
    /// well-formed header field: no colon, or a name empty once trimmed.
    BadLine { rest: Seq<u8> },
    /// A header line was consumed.  `line` is the raw line, `name` its name
    /// bytes with surrounding ASCII whitespace trimmed (non-empty), `val` the
    /// raw bytes past the first colon, `rest` the buffer past the CRLF.
    Field { line: Seq<u8>, name: Seq<u8>, val: Seq<u8>, rest: Seq<u8> },
}

/// One advance of the header cursor: locate the next line; an empty line
/// ends the headers; otherwise split at the first colon and trim the name.
pub open spec fn spec_header_step(s: Seq<u8>) -> HeaderStep {
    match spec_next_line(s) {
        Err(Error::Partial) => HeaderStep::Partial,
        Err(Error::Syntax) => HeaderStep::Syntax,
        Ok(p) => {
            let line = p.0;
            let rest = p.1;
            if line.len() == 0 {
                HeaderStep::End { rest }
            } else {
                match find_first(line, COLON) {
                    None => HeaderStep::BadLine { rest },
                    Some(c) => {
                        let name = trim_ascii(line.take(c));
                        if name.len() == 0 {
                            HeaderStep::BadLine { rest }
                        } else {
                            HeaderStep::Field { line, name, val: line.skip(c + 1), rest }
                        }
                    },
                }
            }
        },
    }
}

/// One advance consumes exactly the located line and its CRLF: putting them
/// back in front of the new cursor position restores the old one.
pub proof fn lemma_header_step_reconstruct(s: Seq<u8>)
    ensures
        (spec_header_step(s) matches HeaderStep::End { rest } ==> s == seq![CR, LF] + rest),
        (spec_header_step(s) matches HeaderStep::Field { line, rest, .. } ==> s == line + seq![
            CR,
            LF,
        ] + rest),
        (spec_header_step(s) matches HeaderStep::BadLine { rest } ==> exists|line: Seq<u8>|
            s == line + seq![CR, LF] + rest),
{
    match spec_next_line(s) {
        Ok(p) => {
            lemma_next_line_reconstruct(s, p.0, p.1);
            if p.0.len() == 0 {
                assert(p.0 + seq![CR, LF] + p.1 =~= seq![CR, LF] + p.1);
            }
        },
        Err(_) => {},
    }
}

/// Once a header line is complete, more bytes do not change how it parses:
/// the same line, name and value come back, and only the remainder grows by
/// the appended bytes.  A delimiter violation likewise stays one.  This is
/// restart idempotence for the header cursor.
pub proof fn lemma_header_step_stable(p: Seq<u8>, ext: Seq<u8>)
    ensures
        spec_header_step(p) is Syntax ==> spec_header_step(p + ext) is Syntax,
        (spec_header_step(p) matches HeaderStep::End { rest } ==> spec_header_step(p + ext)
            == (HeaderStep::End { rest: rest + ext })),
        (spec_header_step(p) matches HeaderStep::BadLine { rest } ==> spec_header_step(p + ext)
            == (HeaderStep::BadLine { rest: rest + ext })),
        (spec_header_step(p) matches HeaderStep::Field { line, name, val, rest }
            ==> spec_header_step(p + ext) == (HeaderStep::Field {
            line,
            name,
            val,
            rest: rest + ext,
        })),
{
    match spec_next_line(p) {
        Ok(q) => {
            crate::scan::lemma_next_line_ok_extend(p, ext, q.0, q.1);
        },
        Err(Error::Syntax) => {
            crate::scan::lemma_next_line_syntax_extend(p, ext);
        },
        Err(Error::Partial) => {},
    }
}

/// The header lines a full iteration consumes, each with its CRLF and the
/// terminating empty line's CRLF included, together with the remainder past
/// the header section — provided every advance up to end-of-headers yields a
/// header field.  `None` when the iteration runs into `Partial`, `Syntax` or
/// a malformed header line instead.
pub open spec fn spec_headers_walk(s: Seq<u8>) -> Option<(Seq<u8>, Seq<u8>)>
    decreases s.len(),
    via spec_headers_walk_decreases
{
    match spec_header_step(s) {
        HeaderStep::Partial => None,
        HeaderStep::Syntax => None,
        HeaderStep::BadLine { .. } => None,
        HeaderStep::End { rest } => Some((seq![CR, LF], rest)),
        HeaderStep::Field { line, rest, .. } => match spec_headers_walk(rest) {
            None => None,
            Some(w) => Some((line + seq![CR, LF] + w.0, w.1)),
        },
    }
}

#[via_fn]
proof fn spec_headers_walk_decreases(s: Seq<u8>) {
    lemma_header_step_reconstruct(s);
}

/// Lossless reconstruction for a full header iteration: the concatenation of
/// every consumed header line with its CRLF, plus the terminating empty
/// line's CRLF, plus the final remainder, is the starting buffer exactly.
pub proof fn lemma_headers_reconstruct(s: Seq<u8>)
    ensures
        spec_headers_walk(s) matches Some(w) ==> s == w.0 + w.1,
    decreases s.len(),
{
    lemma_header_step_reconstruct(s);
    match spec_header_step(s) {
        HeaderStep::Field { line, rest, .. } => {
            lemma_headers_reconstruct(rest);
            match spec_headers_walk(rest) {
                Some(w) => {
                    assert((line + seq![CR, LF] + w.0) + w.1 =~= line + seq![CR, LF] + (w.0
                        + w.1));
                },
                None => {},
            }
        },
        _ => {},
    }
}

impl<'a> Headers<'a> {
    /// True once the cursor has consumed the empty line that ends the header
    /// section: its terminal state, in which every further advance yields
    /// nothing and moves nothing.
    pub closed spec fn exhausted(&self) -> bool {
        self.done
    }

    /// Create a new `Headers` iterator over the given bytes, which must begin
    /// directly after the Request-Line CRLF.
    pub fn new(s: &'a [u8]) -> (r: Self)
        ensures
            r@ == s@,
            !r.exhausted(),
    {
        Headers { rem: s, done: false }
    }

    /// Retrieve the remaining bytes that haven't been processed.
    ///
    /// If called after the last yielded header, this slice will contain the
    /// beginning of the request body.
    pub fn into_inner(self) -> (r: &'a [u8])
        ensures
            r@ == self@,
    {
        self.rem
    }

    /// Advance past the next header line and yield it, or `None` at the
    /// empty line that ends the header section.
    ///
    /// On `Partial` or `Syntax` from the line scanner nothing is consumed;
    /// once a line is located the cursor moves past it whether or not the
    /// line is a well-formed header field.  Once the empty line has been
    /// consumed the cursor is exhausted: every further advance yields `None`
    /// and leaves the held remainder untouched.
    pub fn next(&mut self) -> (r: Option<Result<Header<'a>, Error>>)
        ensures
            old(self).exhausted() ==> (r is None && final(self)@ == old(self)@
                && final(self).exhausted()),
            !old(self).exhausted() ==> match r {
                None => (spec_header_step(old(self)@) matches HeaderStep::End { rest }
                    && final(self)@ == rest && final(self).exhausted()),
                Some(Ok(h)) => (spec_header_step(old(self)@) matches HeaderStep::Field {
                    name,
                    val,
                    rest,
                    ..
                } && valid_utf8(name) && h.name@ == decode_utf8(name) && h.name@.len() > 0
                    && h.val@ == val && final(self)@ == rest && !final(self).exhausted()),
                Some(Err(e)) => (!final(self).exhausted() && ((e == Error::Partial
                    && spec_header_step(old(self)@) is Partial && final(self)@ == old(self)@)
                    || (e == Error::Syntax && spec_header_step(old(self)@) is Syntax
                        && final(self)@ == old(self)@)
                    || (e == Error::Syntax
                        && (spec_header_step(old(self)@) matches HeaderStep::BadLine { rest }
                            && final(self)@ == rest))
                    || (e == Error::Syntax
                        && (spec_header_step(old(self)@) matches HeaderStep::Field { name, rest, .. }
                            && !valid_utf8(name) && final(self)@ == rest)))),
            },
    {
        if self.done {
            return None;
        }
        let (line, rest) = match next_line(self.rem) {
            Ok(p) => p,
            Err(e) => {
                return Some(Err(e));
            },
        };
        self.rem = rest;
        if line.len() == 0 {
            self.done = true;
            return None;
        }
        let c = match find_byte(COLON, line) {
            Some(c) => c,
            None => {
                proof {
                    lemma_find_first_absent(line@, COLON);
                }
                return Some(Err(Error::Syntax));
            },
        };
        proof {
            lemma_find_first_unique(line@, COLON, c as int);
        }
        let name_raw = slice_subrange(line, 0, c);
        let name_trimmed = trim_ascii_ws(name_raw);
        if name_trimmed.len() == 0 {
            return Some(Err(Error::Syntax));
        }
        let name = match bytes_to_str(name_trimmed) {
            Some(s) => {
                proof {
                    crate::text::lemma_decode_utf8_nonempty(name_trimmed@);
                }
                s
            },
            None => {
                return Some(Err(Error::Syntax));
            },
        };
        let line_len = line.len();
        let val = slice_subrange(line, c + 1, line_len);
        Some(Ok(Header { name, val }))
    }
}

} // verus!
