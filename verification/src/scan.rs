//! Byte-level line scanning: locating the next CRLF-terminated line in a
//! buffer and skipping runs of leading empty lines.

use vstd::prelude::*;
use vstd::slice::slice_subrange;
use crate::Error;

verus! {

/// The carriage-return byte.
pub const CR: u8 = 13;

/// The line-feed byte.
pub const LF: u8 = 10;

/// Index of the first occurrence of `c` in `s`, if any.
pub open spec fn find_first(s: Seq<u8>, c: u8) -> Option<int>
    decreases s.len(),
{
    if s.len() == 0 {
        None
    } else if s[0] == c {
        Some(0int)
    } else {
        match find_first(s.skip(1), c) {
            Some(i) => Some(i + 1),
            None => None,
        }
    }
}

/// `find_first` returns the least index holding `c`, or `None` when `c` does
/// not occur at all.
pub proof fn lemma_find_first(s: Seq<u8>, c: u8)
    ensures
        match find_first(s, c) {
            Some(i) => 0 <= i < s.len() && s[i] == c && (forall|j: int|
                0 <= j < i ==> s[j] != c),
            None => forall|j: int| 0 <= j < s.len() ==> s[j] != c,
        },
    decreases s.len(),
{
    if s.len() == 0 {
    } else if s[0] == c {
    } else {
        lemma_find_first(s.skip(1), c);
        match find_first(s.skip(1), c) {
            Some(i) => {
                assert(s.skip(1)[i] == s[i + 1]);
                assert forall|j: int| 0 <= j < i + 1 implies s[j] != c by {
                    if j > 0 {
                        assert(s.skip(1)[j - 1] == s[j]);
                    }
                }
            },
            None => {
                assert forall|j: int| 0 <= j < s.len() implies s[j] != c by {
                    if j > 0 {
                        assert(s.skip(1)[j - 1] == s[j]);
                    }
                }
            },
        }
    }
}

/// An index that holds `c` with no earlier occurrence is exactly what
/// `find_first` returns.
pub proof fn lemma_find_first_unique(s: Seq<u8>, c: u8, i: int)
    requires
        0 <= i < s.len(),
        s[i] == c,
        forall|j: int| 0 <= j < i ==> s[j] != c,
    ensures
        find_first(s, c) == Some(i),
{
    lemma_find_first(s, c);
    match find_first(s, c) {
        Some(k) => {
            if k < i {
                assert(s[k] != c);
            } else if i < k {
                assert(s[i] != c);
            }
        },
        None => {
            assert(s[i] != c);
        },
    }
}

/// When no index of `s` holds `c`, `find_first` reports `None`.
pub proof fn lemma_find_first_absent(s: Seq<u8>, c: u8)
    requires
        forall|j: int| 0 <= j < s.len() ==> s[j] != c,
    ensures
        find_first(s, c) is None,
{
    lemma_find_first(s, c);
    match find_first(s, c) {
        Some(k) => {
            assert(s[k] != c);
        },
        None => {},
    }
}

/// Relies on memchr::memchr: the index of the first occurrence of `needle`
/// in `haystack`, or `None` when the byte does not occur.
#[verifier::external_body]
pub(crate) fn find_byte(needle: u8, haystack: &[u8]) -> (r: Option<usize>)
    ensures
        match r {
            Some(i) => i < haystack@.len() && haystack@[i as int] == needle && (forall|j: int|
                0 <= j < i ==> haystack@[j] != needle),
            None => forall|j: int| 0 <= j < haystack@.len() ==> haystack@[j] != needle,
        },
{
    memchr::memchr(needle, haystack)
}

/// Outcome of testing a buffer for a leading CRLF pair: the bytes past the
/// pair, or `Partial` when fewer than two bytes are present, or `Syntax` when
/// two bytes are present but are not CR then LF.
pub open spec fn spec_check_crlf(s: Seq<u8>) -> Result<Seq<u8>, Error> {
    if s.len() < 2 {
        Err(Error::Partial)
    } else if s[0] == CR && s[1] == LF {
        Ok(s.skip(2))
    } else {
        Err(Error::Syntax)
    }
}

/// Outcome of discarding every leading empty line: the first suffix that does
/// not begin with CRLF, provided it still holds at least two bytes; `Partial`
/// otherwise.
pub open spec fn spec_skip_empty(s: Seq<u8>) -> Result<Seq<u8>, Error>
    decreases s.len(),
{
    if s.len() < 2 {
        Err(Error::Partial)
    } else if s[0] == CR && s[1] == LF {
        spec_skip_empty(s.skip(2))
    } else {
        Ok(s)
    }
}

/// Outcome of locating the next CRLF-terminated line: the bytes before the
/// first CR and the bytes past the following LF.  `Partial` when no CR is
/// present or the buffer ends right after one; `Syntax` when the byte after
/// the first CR is not LF.
pub open spec fn spec_next_line(s: Seq<u8>) -> Result<(Seq<u8>, Seq<u8>), Error> {
    match find_first(s, CR) {
        None => Err(Error::Partial),
        Some(i) => match spec_check_crlf(s.skip(i)) {
            Ok(rest) => Ok((s.take(i), rest)),
            Err(e) => Err(e),
        },
    }
}

/// A run of `k` empty lines: the CRLF pair repeated `k` times.
pub open spec fn crlf_run(k: nat) -> Seq<u8>
    decreases k,
{
    if k == 0 {
        Seq::empty()
    } else {
        seq![CR, LF] + crlf_run((k - 1) as nat)
    }
}

/// The first occurrence of a byte does not move when the buffer grows.
pub proof fn lemma_find_first_extend(p: Seq<u8>, ext: Seq<u8>, c: u8, i: int)
    requires
        find_first(p, c) == Some(i),
    ensures
        find_first(p + ext, c) == Some(i),
{
    lemma_find_first(p, c);
    assert((p + ext)[i] == p[i]);
    assert forall|j: int| 0 <= j < i implies (p + ext)[j] != c by {
        assert((p + ext)[j] == p[j]);
    }
    lemma_find_first_unique(p + ext, c, i);
}

/// Skipping leading empty lines commutes with appending bytes, once it has
/// succeeded: the same run of empty lines is discarded and the appended bytes
/// stay at the end.
pub proof fn lemma_skip_empty_ok_extend(p: Seq<u8>, ext: Seq<u8>, u: Seq<u8>)
    requires
        spec_skip_empty(p) == Ok::<Seq<u8>, Error>(u),
    ensures
        spec_skip_empty(p + ext) == Ok::<Seq<u8>, Error>(u + ext),
    decreases p.len(),
{
    assert(p.len() >= 2);
    assert((p + ext)[0] == p[0]);
    assert((p + ext)[1] == p[1]);
    if p[0] == CR && p[1] == LF {
        assert((p + ext).skip(2) =~= p.skip(2) + ext);
        lemma_skip_empty_ok_extend(p.skip(2), ext, u);
    } else {
        assert(u == p);
        assert(u + ext =~= p + ext);
    }
}

/// Skipping leading empty lines discards exactly a run of CRLF pairs: the
/// input is that run followed by the returned suffix.
pub proof fn lemma_skip_empty_reconstruct(s: Seq<u8>, u: Seq<u8>)
    requires
        spec_skip_empty(s) == Ok::<Seq<u8>, Error>(u),
    ensures
        exists|k: nat| s == crlf_run(k) + u,
    decreases s.len(),
{
    assert(s.len() >= 2);
    if s[0] == CR && s[1] == LF {
        lemma_skip_empty_reconstruct(s.skip(2), u);
        let k0 = choose|k: nat| s.skip(2) == crlf_run(k) + u;
        assert(crlf_run(k0 + 1) == seq![CR, LF] + crlf_run(k0));
        assert(s =~= seq![CR, LF] + s.skip(2));
        assert((seq![CR, LF] + crlf_run(k0)) + u =~= seq![CR, LF] + (crlf_run(k0) + u));
        assert(s == crlf_run(k0 + 1) + u);
    } else {
        assert(crlf_run(0) + u =~= u);
        assert(s == crlf_run(0nat) + u);
    }
}

/// A located line is unchanged when the buffer grows; only the remainder
/// carries the appended bytes.
pub proof fn lemma_next_line_ok_extend(p: Seq<u8>, ext: Seq<u8>, line: Seq<u8>, rest: Seq<u8>)
    requires
        spec_next_line(p) == Ok::<(Seq<u8>, Seq<u8>), Error>((line, rest)),
    ensures
        spec_next_line(p + ext) == Ok::<(Seq<u8>, Seq<u8>), Error>((line, rest + ext)),
{
    match find_first(p, CR) {
        Some(i) => {
            lemma_find_first(p, CR);
            lemma_find_first_extend(p, ext, CR, i);
            assert((p + ext).skip(i) =~= p.skip(i) + ext);
            assert((p.skip(i) + ext)[0] == p.skip(i)[0]);
            assert((p.skip(i) + ext)[1] == p.skip(i)[1]);
            assert((p + ext).skip(i).skip(2) =~= p.skip(i).skip(2) + ext);
            assert((p + ext).take(i) =~= p.take(i));
        },
        None => {},
    }
}

/// A delimiter violation at the line terminator does not go away when the
/// buffer grows.
pub proof fn lemma_next_line_syntax_extend(p: Seq<u8>, ext: Seq<u8>)
    requires
        spec_next_line(p) == Err::<(Seq<u8>, Seq<u8>), Error>(Error::Syntax),
    ensures
        spec_next_line(p + ext) == Err::<(Seq<u8>, Seq<u8>), Error>(Error::Syntax),
{
    match find_first(p, CR) {
        Some(i) => {
            lemma_find_first(p, CR);
            lemma_find_first_extend(p, ext, CR, i);
            assert((p + ext).skip(i) =~= p.skip(i) + ext);
            assert((p.skip(i) + ext)[0] == p.skip(i)[0]);
            assert((p.skip(i) + ext)[1] == p.skip(i)[1]);
        },
        None => {},
    }
}

/// The located line, its CRLF terminator and the remainder reassemble the
/// scanned buffer exactly.
pub proof fn lemma_next_line_reconstruct(s: Seq<u8>, line: Seq<u8>, rest: Seq<u8>)
    requires
        spec_next_line(s) == Ok::<(Seq<u8>, Seq<u8>), Error>((line, rest)),
    ensures
        s == line + seq![CR, LF] + rest,
{
    match find_first(s, CR) {
        Some(i) => {
            lemma_find_first(s, CR);
            assert(s.skip(i)[0] == s[i]);
            assert(s.skip(i)[1] == s[i + 1]);
            assert(rest == s.skip(i).skip(2));
            assert forall|j: int| 0 <= j < rest.len() implies rest[j] == s[i + 2 + j] by {
                assert(s.skip(i).skip(2)[j] == s.skip(i)[j + 2]);
            }
            assert(s =~= line + seq![CR, LF] + rest);
        },
        None => {},
    }
}

/// Check whether `bytes` begins with CRLF and, when it does, return the slice
/// immediately after the pair.
pub fn check_crlf<'a>(bytes: &'a [u8]) -> (r: Result<&'a [u8], Error>)
    ensures
        match r {
            Ok(rest) => spec_check_crlf(bytes@) == Ok::<Seq<u8>, Error>(rest@),
            Err(e) => spec_check_crlf(bytes@) == Err::<Seq<u8>, Error>(e),
        },
{
    if bytes.len() < 2 {
        Err(Error::Partial)
    } else if bytes[0] == CR && bytes[1] == LF {
        Ok(slice_subrange(bytes, 2, bytes.len()))
    } else {
        Err(Error::Syntax)
    }
}

/// Consume CRLF pairs from the front of `bytes` until the first suffix that
/// does not begin with one, and return that suffix.
pub fn skip_empty_lines<'a>(bytes: &'a [u8]) -> (r: Result<&'a [u8], Error>)
    ensures
        match r {
            Ok(rest) => spec_skip_empty(bytes@) == Ok::<Seq<u8>, Error>(rest@),
            Err(e) => e == Error::Partial && spec_skip_empty(bytes@) == Err::<Seq<u8>, Error>(e),
        },
{
    let mut cur: &[u8] = bytes;
    loop
        invariant
            spec_skip_empty(cur@) == spec_skip_empty(bytes@),
        decreases cur@.len(),
    {
        match check_crlf(cur) {
            Ok(rest) => {
                cur = rest;
            },
            Err(Error::Partial) => {
                return Err(Error::Partial);
            },
            Err(Error::Syntax) => {
                return Ok(cur);
            },
        }
    }
}

/// Locate the next line of the request: the bytes up to but not including the
/// nearest CRLF, together with the bytes past it.
pub fn next_line<'a>(bytes: &'a [u8]) -> (r: Result<(&'a [u8], &'a [u8]), Error>)
    ensures
        match r {
            Ok(p) => spec_next_line(bytes@) == Ok::<(Seq<u8>, Seq<u8>), Error>((p.0@, p.1@)),
            Err(e) => spec_next_line(bytes@) == Err::<(Seq<u8>, Seq<u8>), Error>(e),
        },
{
    let idx = match find_byte(CR, bytes) {
        Some(i) => i,
        None => {
            proof {
                lemma_find_first_absent(bytes@, CR);
            }
            return Err(Error::Partial);
        },
    };
    proof {
        lemma_find_first_unique(bytes@, CR, idx as int);
    }
    let line = slice_subrange(bytes, 0, idx);
    let tail = slice_subrange(bytes, idx, bytes.len());
    match check_crlf(tail) {
        Ok(rest) => Ok((line, rest)),
        Err(e) => Err(e),
    }
}

} // verus!
