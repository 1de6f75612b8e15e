//! Textual helpers for header and request-line fields: UTF-8 decoding of a
//! byte view into a borrowed string, and trimming of surrounding ASCII
//! whitespace at the byte level.

use vstd::prelude::*;
use vstd::slice::slice_subrange;
use vstd::utf8::{decode_utf8, valid_utf8};

verus! {

/// Relies on core::str::from_utf8: the call succeeds exactly on valid UTF-8,
/// and then the returned string borrows the same bytes, so its characters are
/// their decoding.
#[verifier::external_body]
pub(crate) fn bytes_to_str<'a>(b: &'a [u8]) -> (r: Option<&'a str>)
    ensures
        match r {
            Some(s) => valid_utf8(b@) && s@ == decode_utf8(b@),
            None => !valid_utf8(b@),
        },
{
    core::str::from_utf8(b).ok()
}

/// True for the ASCII whitespace bytes: space, tab, line feed, form feed and
/// carriage return.
pub open spec fn is_ascii_ws(b: u8) -> bool {
    b == 32 || b == 9 || b == 10 || b == 12 || b == 13
}

/// `s` without its leading run of ASCII whitespace bytes.
pub open spec fn trim_front(s: Seq<u8>) -> Seq<u8>
    decreases s.len(),
{
    if s.len() > 0 && is_ascii_ws(s[0]) {
        trim_front(s.skip(1))
    } else {
        s
    }
}

/// `s` without its trailing run of ASCII whitespace bytes.
pub open spec fn trim_back(s: Seq<u8>) -> Seq<u8>
    decreases s.len(),
{
    if s.len() > 0 && is_ascii_ws(s.last()) {
        trim_back(s.drop_last())
    } else {
        s
    }
}

/// `s` without surrounding ASCII whitespace bytes.
pub open spec fn trim_ascii(s: Seq<u8>) -> Seq<u8> {
    trim_back(trim_front(s))
}

/// A non-empty valid UTF-8 byte view decodes to at least one character.
pub proof fn lemma_decode_utf8_nonempty(b: Seq<u8>)
    requires
        valid_utf8(b),
        b.len() > 0,
    ensures
        decode_utf8(b).len() > 0,
{
}

fn is_ws_byte(b: u8) -> (r: bool)
    ensures
        r == is_ascii_ws(b),
{
    b == 32 || b == 9 || b == 10 || b == 12 || b == 13
}

/// The sub-slice of `b` left over once surrounding ASCII whitespace bytes are
/// removed.
pub fn trim_ascii_ws<'a>(b: &'a [u8]) -> (r: &'a [u8])
    ensures
        r@ == trim_ascii(b@),
{
    let mut lo: usize = 0;
    proof {
        assert(b@.skip(0int) =~= b@);
    }
    while lo < b.len() && is_ws_byte(b[lo])
        invariant
            0 <= lo <= b@.len(),
            trim_front(b@.skip(lo as int)) == trim_front(b@),
        decreases b@.len() - lo,
    {
        proof {
            assert(b@.skip(lo as int).skip(1) =~= b@.skip(lo as int + 1));
        }
        lo = lo + 1;
    }
    proof {
        assert(trim_front(b@.skip(lo as int)) == b@.skip(lo as int));
        assert(b@.subrange(lo as int, b@.len() as int) =~= b@.skip(lo as int));
    }
    let mut hi: usize = b.len();
    while hi > lo && is_ws_byte(b[hi - 1])
        invariant
            lo <= hi <= b@.len(),
            trim_back(b@.subrange(lo as int, hi as int)) == trim_ascii(b@),
        decreases hi,
    {
        proof {
            assert(b@.subrange(lo as int, hi as int).drop_last() =~= b@.subrange(
                lo as int,
                hi as int - 1,
            ));
        }
        hi = hi - 1;
    }
    proof {
        assert(trim_back(b@.subrange(lo as int, hi as int)) == b@.subrange(lo as int, hi as int));
    }
    slice_subrange(b, lo, hi)
}

} // verus!
