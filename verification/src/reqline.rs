//! Parsing of the request-line: the first non-empty line of a request,
//! split on single spaces into exactly three fields.

use vstd::prelude::*;
use vstd::slice::slice_subrange;
use vstd::utf8::{decode_utf8, valid_utf8};
use crate::Error;
use crate::scan::{
    CR, LF, crlf_run, find_byte, find_first, lemma_find_first, lemma_find_first_absent,
    lemma_find_first_unique, lemma_next_line_ok_extend, lemma_next_line_reconstruct,
    lemma_next_line_syntax_extend, lemma_skip_empty_ok_extend, lemma_skip_empty_reconstruct,
    next_line, skip_empty_lines, spec_next_line, spec_skip_empty,
};
use crate::text::bytes_to_str;

verus! {

/// The space byte, the request-line's field separator.
pub const SP: u8 = 32;

/// A request-line: the three views into the parsed buffer.
#[derive(Copy, Clone, Eq, PartialEq, Debug)]
pub struct RequestLine<'a> {
    /// Request method on the target resource.
    ///
    /// Guaranteed free of spaces, but not guaranteed free of other whitespace
    /// or otherwise syntactically correct.
    pub method: &'a str,
    /// Target resource of the request.
    ///
    /// Guaranteed free of spaces, but not guaranteed free of other whitespace
    /// or otherwise syntactically correct.
    pub target: &'a str,
    /// HTTP protocol version of the request.
    ///
    /// Guaranteed free of spaces, but not guaranteed free of other whitespace
    /// or otherwise syntactically correct.
    pub version: &'a str,
}

/// The three fields of a line split on its space bytes, provided the split
/// yields exactly three: the line must hold exactly two space bytes, and the
/// fields are the bytes before the first, between the two, and after the
/// second.
pub open spec fn spec_split_fields(line: Seq<u8>) -> Option<(Seq<u8>, Seq<u8>, Seq<u8>)> {
    match find_first(line, SP) {
        None => None,
        Some(i) => {
            let tail1 = line.skip(i + 1);
            match find_first(tail1, SP) {
                None => None,
                Some(j) => {
                    let tail2 = tail1.skip(j + 1);
                    if find_first(tail2, SP) is Some {
                        None
                    } else {
                        Some((line.take(i), tail1.take(j), tail2))
                    }
                },
            }
        },
    }
}

/// Structural outcome of request-line parsing, over the raw bytes of the
/// buffer.  UTF-8 decoding of the three fields comes on top of this in the
/// contract of [`RequestLine::new`].
pub ghost enum ReqParse {
    /// More bytes are needed before the line resolves.
    Partial,
    /// The delimiter structure is broken: a CR without LF, or a line without
    /// exactly three space-separated fields.
    Syntax,
    /// The line was located and split into exactly three fields; `rest` is
    /// everything past the line's terminating CRLF.
    Fields { method: Seq<u8>, target: Seq<u8>, version: Seq<u8>, rest: Seq<u8> },
}

/// Structural request-line parse: skip leading empty lines, locate the next
/// CRLF-terminated line, and split it into exactly three fields.
pub open spec fn spec_request_line(s: Seq<u8>) -> ReqParse {
    match spec_skip_empty(s) {
        Err(_) => ReqParse::Partial,
        Ok(start) => match spec_next_line(start) {
            Err(Error::Partial) => ReqParse::Partial,
            Err(Error::Syntax) => ReqParse::Syntax,
            Ok(p) => match spec_split_fields(p.0) {
                None => ReqParse::Syntax,
                Some(f) => ReqParse::Fields {
                    method: f.0,
                    target: f.1,
                    version: f.2,
                    rest: p.1,
                },
            },
        },
    }
}

/// Feeding more bytes never turns a syntax error into success: a buffer that
/// already shows a delimiter violation keeps showing it however it grows.
pub proof fn lemma_request_line_syntax_stable(p: Seq<u8>, ext: Seq<u8>)
    requires
        spec_request_line(p) is Syntax,
    ensures
        spec_request_line(p + ext) is Syntax,
{
    match spec_skip_empty(p) {
        Err(_) => {},
        Ok(start) => {
            lemma_skip_empty_ok_extend(p, ext, start);
            match spec_next_line(start) {
                Err(Error::Partial) => {},
                Err(Error::Syntax) => {
                    lemma_next_line_syntax_extend(start, ext);
                },
                Ok(q) => {
                    lemma_next_line_ok_extend(start, ext, q.0, q.1);
                },
            }
        },
    }
}

/// Once the structural unit is complete, further bytes do not change the
/// parse: the same three fields come back, and only the remainder grows by
/// the appended bytes.  Together with the syntax-stability lemma this says a
/// parse restarted on a longer buffer agrees with parsing the complete unit
/// directly.
pub proof fn lemma_request_line_ok_stable(
    p: Seq<u8>,
    ext: Seq<u8>,
    method: Seq<u8>,
    target: Seq<u8>,
    version: Seq<u8>,
    rest: Seq<u8>,
)
    requires
        spec_request_line(p) == (ReqParse::Fields { method, target, version, rest }),
    ensures
        spec_request_line(p + ext) == (ReqParse::Fields {
            method,
            target,
            version,
            rest: rest + ext,
        }),
{
    match spec_skip_empty(p) {
        Err(_) => {},
        Ok(start) => {
            lemma_skip_empty_ok_extend(p, ext, start);
            match spec_next_line(start) {
                Err(_) => {},
                Ok(q) => {
                    lemma_next_line_ok_extend(start, ext, q.0, q.1);
                },
            }
        },
    }
}

/// Lossless reconstruction: a successful parse consumes a run of empty
/// lines, then the three fields with their two separating spaces and the
/// terminating CRLF; putting those back in front of the remainder restores
/// the input exactly.
pub proof fn lemma_request_line_reconstruct(
    s: Seq<u8>,
    method: Seq<u8>,
    target: Seq<u8>,
    version: Seq<u8>,
    rest: Seq<u8>,
)
    requires
        spec_request_line(s) == (ReqParse::Fields { method, target, version, rest }),
    ensures
        exists|k: nat|
            s == crlf_run(k) + (method + seq![SP] + target + seq![SP] + version) + seq![CR, LF]
                + rest,
{
    match spec_skip_empty(s) {
        Err(_) => {},
        Ok(start) => {
            lemma_skip_empty_reconstruct(s, start);
            let k = choose|k: nat| s == crlf_run(k) + start;
            match spec_next_line(start) {
                Err(_) => {},
                Ok(q) => {
                    let line = q.0;
                    lemma_next_line_reconstruct(start, line, rest);
                    match find_first(line, SP) {
                        None => {},
                        Some(i) => {
                            lemma_find_first(line, SP);
                            let tail1 = line.skip(i + 1);
                            match find_first(tail1, SP) {
                                None => {},
                                Some(j) => {
                                    lemma_find_first(tail1, SP);
                                    assert(tail1[j] == line[i + 1 + j]);
                                    assert forall|x: int| 0 <= x < tail1.len() implies tail1[x]
                                        == line[i + 1 + x] by {}
                                    assert(line =~= method + seq![SP] + target + seq![SP]
                                        + version);
                                    assert(start =~= (method + seq![SP] + target + seq![SP]
                                        + version) + seq![CR, LF] + rest);
                                    assert(s == crlf_run(k) + (method + seq![SP] + target
                                        + seq![SP] + version) + seq![CR, LF] + rest) by {
                                        assert(crlf_run(k) + ((method + seq![SP] + target
                                            + seq![SP] + version) + seq![CR, LF] + rest) =~= crlf_run(
                                            k,
                                        ) + (method + seq![SP] + target + seq![SP] + version)
                                            + seq![CR, LF] + rest);
                                    }
                                },
                            }
                        },
                    }
                },
            }
        },
    }
}

/// The three fields of a successful structural parse are free of the space
/// byte: the split happens at every space of the line.
pub proof fn lemma_request_line_fields_space_free(
    s: Seq<u8>,
    method: Seq<u8>,
    target: Seq<u8>,
    version: Seq<u8>,
    rest: Seq<u8>,
)
    requires
        spec_request_line(s) == (ReqParse::Fields { method, target, version, rest }),
    ensures
        forall|x: int| 0 <= x < method.len() ==> method[x] != SP,
        forall|x: int| 0 <= x < target.len() ==> target[x] != SP,
        forall|x: int| 0 <= x < version.len() ==> version[x] != SP,
{
    match spec_skip_empty(s) {
        Err(_) => {},
        Ok(start) => {
            match spec_next_line(start) {
                Err(_) => {},
                Ok(q) => {
                    let line = q.0;
                    match find_first(line, SP) {
                        None => {},
                        Some(i) => {
                            lemma_find_first(line, SP);
                            let tail1 = line.skip(i + 1);
                            match find_first(tail1, SP) {
                                None => {},
                                Some(j) => {
                                    lemma_find_first(tail1, SP);
                                    lemma_find_first(tail1.skip(j + 1), SP);
                                },
                            }
                        },
                    }
                },
            }
        },
    }
}

/// A leading empty line is tolerated and changes nothing: parsing a buffer
/// with one more CRLF in front gives exactly the same outcome, fields and
/// remainder alike.
pub proof fn lemma_request_line_skips_empty_line(s: Seq<u8>)
    ensures
        spec_request_line(seq![CR, LF] + s) == spec_request_line(s),
{
    let t = seq![CR, LF] + s;
    assert(t.len() >= 2 && t[0] == CR && t[1] == LF);
    assert(t.skip(2) =~= s);
    assert(spec_skip_empty(t) == spec_skip_empty(s));
}

impl<'a> RequestLine<'a> {
    /// Try to parse the given bytes into `RequestLine` components.
    ///
    /// On success, return `Ok((rl, rest))`, where `rl` holds the three
    /// space-free fields of the first non-empty line and `rest` begins
    /// directly after that line's terminating CRLF.  `Partial` reports a
    /// buffer in which the line has not yet terminated; `Syntax` reports a
    /// broken terminator, a field count other than three, or a field that is
    /// not valid UTF-8.
    pub fn new(buf: &'a [u8]) -> (r: Result<(Self, &'a [u8]), Error>)
        ensures
            match r {
                Ok(p) => (spec_request_line(buf@) matches ReqParse::Fields {
                    method,
                    target,
                    version,
                    rest,
                } && valid_utf8(method) && valid_utf8(target) && valid_utf8(version)
                    && p.0.method@ == decode_utf8(method) && p.0.target@ == decode_utf8(target)
                    && p.0.version@ == decode_utf8(version) && p.1@ == rest),
                Err(Error::Partial) => spec_request_line(buf@) is Partial,
                Err(Error::Syntax) => (spec_request_line(buf@) is Syntax || (spec_request_line(
                    buf@,
                ) matches ReqParse::Fields { method, target, version, .. } && !(valid_utf8(method)
                    && valid_utf8(target) && valid_utf8(version)))),
            },
    {
        let start = match skip_empty_lines(buf) {
            Ok(s) => s,
            Err(e) => {
                return Err(e);
            },
        };
        let (line, rest) = match next_line(start) {
            Ok(p) => p,
            Err(e) => {
                return Err(e);
            },
        };
        let i = match find_byte(SP, line) {
            Some(i) => i,
            None => {
                proof {
                    lemma_find_first_absent(line@, SP);
                }
                return Err(Error::Syntax);
            },
        };
        proof {
            lemma_find_first_unique(line@, SP, i as int);
        }
        let line_len = line.len();
        let tail1 = slice_subrange(line, i + 1, line_len);
        let j = match find_byte(SP, tail1) {
            Some(j) => j,
            None => {
                proof {
                    lemma_find_first_absent(tail1@, SP);
                }
                return Err(Error::Syntax);
            },
        };
        proof {
            lemma_find_first_unique(tail1@, SP, j as int);
        }
        let tail1_len = tail1.len();
        let tail2 = slice_subrange(tail1, j + 1, tail1_len);
        match find_byte(SP, tail2) {
            Some(k) => {
                proof {
                    lemma_find_first_unique(tail2@, SP, k as int);
                }
                return Err(Error::Syntax);
            },
            None => {
                proof {
                    lemma_find_first_absent(tail2@, SP);
                }
            },
        }
        let m_bytes = slice_subrange(line, 0, i);
        let t_bytes = slice_subrange(tail1, 0, j);
        let method = match bytes_to_str(m_bytes) {
            Some(s) => s,
            None => {
                return Err(Error::Syntax);
            },
        };
        let target = match bytes_to_str(t_bytes) {
            Some(s) => s,
            None => {
                return Err(Error::Syntax);
            },
        };
        let version = match bytes_to_str(tail2) {
            Some(s) => s,
            None => {
                return Err(Error::Syntax);
            },
        };
        Ok((RequestLine { method, target, version }, rest))
    }
}

} // verus!
