//! Trimming whitespace off both ends of a text.

use vstd::prelude::*;
use vstd::string::*;
use vstd::utf8::*;
use crate::encoding::lemma_between_boundaries;
use crate::encoding::lemma_boundary_iff;
use crate::encoding::lemma_decode_between;
use crate::encoding::lemma_decode_one;
use crate::encoding::lemma_first_scalar_in_range;
use crate::encoding::lemma_scalar_at;
use crate::text::is_whitespace;
use crate::text::trim_end;
use crate::text::trim_start;
use crate::text::trimmed;

verus! {

/// Tells whether the character of scalar value `v` is whitespace.
fn scalar_is_whitespace(v: u32) -> (b: bool)
    requires
        is_scalar(v),
    ensures
        b == is_whitespace(v as char),
{
    (0x09 <= v && v <= 0x0D) || v == 0x20 || v == 0x85 || v == 0xA0 || v == 0x1680 || (0x2000 <= v
        && v <= 0x200A) || v == 0x2028 || v == 0x2029 || v == 0x202F || v == 0x205F || v == 0x3000
}

/// Decodes the character that starts at the boundary `at`: its scalar value
/// and the number of bytes that encode it.
fn decode_at(bytes: &[u8], at: usize) -> (r: (u32, usize))
    requires
        valid_utf8(bytes@),
        is_char_boundary(bytes@, at as int),
        at < bytes@.len(),
    ensures
        r.0 == decode_first_scalar(bytes@.skip(at as int)),
        r.1 == length_of_first_scalar(bytes@.skip(at as int)),
        is_scalar(r.0),
        at + r.1 <= bytes@.len(),
        is_char_boundary(bytes@, at + r.1),
{
    proof {
        lemma_scalar_at(bytes@, at as int);
        lemma_first_scalar_in_range(bytes@.skip(at as int));
    }
    let b0 = bytes[at];
    if b0 <= 0x7F {
        ((b0 & 0x7F) as u32, 1)
    } else if b0 <= 0xDF {
        let b1 = bytes[at + 1];
        ((((b0 & 0x1F) as u32) << 6) | ((b1 & 0x3F) as u32), 2)
    } else if b0 <= 0xEF {
        let b1 = bytes[at + 1];
        let b2 = bytes[at + 2];
        ((((b0 & 0x0F) as u32) << 12) | (((b1 & 0x3F) as u32) << 6) | ((b2 & 0x3F) as u32), 3)
    } else {
        let b1 = bytes[at + 1];
        let b2 = bytes[at + 2];
        let b3 = bytes[at + 3];
        (
            (((b0 & 0x07) as u32) << 18) | (((b1 & 0x3F) as u32) << 12) | (((b2 & 0x3F) as u32)
                << 6) | ((b3 & 0x3F) as u32),
            4,
        )
    }
}

/// Finds the boundary at which the character that ends at `to` starts.
fn start_of_last(bytes: &[u8], from: usize, to: usize) -> (start: usize)
    requires
        valid_utf8(bytes@),
        is_char_boundary(bytes@, from as int),
        is_char_boundary(bytes@, to as int),
        from < to <= bytes@.len(),
    ensures
        from <= start < to,
        is_char_boundary(bytes@, start as int),
        start + length_of_first_scalar(bytes@.skip(start as int)) == to,
{
    let n = bytes.len();
    proof {
        lemma_boundary_iff(bytes@, from as int);
    }
    let mut start: usize = to - 1;
    while bytes[start] >= 0x80 && bytes[start] <= 0xBF
        invariant
            n == bytes@.len(),
            from <= start < to <= n,
            !is_continuation_byte(bytes@[from as int]),
            forall|k: int| start < k < to ==> is_continuation_byte(#[trigger] bytes@[k]),
        decreases start,
    {
        start -= 1;
    }
    proof {
        // The character that starts at `start` ends at the next boundary.
        // That is `to`: the bytes between the two are continuation bytes,
        // and a boundary holds none.
        let len = length_of_first_scalar(bytes@.skip(start as int));
        lemma_boundary_iff(bytes@, start as int);
        lemma_scalar_at(bytes@, start as int);
        lemma_boundary_iff(bytes@, start + len);
        lemma_boundary_iff(bytes@, to as int);
        assert(start + len == to);
    }
    start
}

/// Finds the boundary at which the leading whitespace of the text ends.
fn leading_whitespace(bytes: &[u8]) -> (from: usize)
    requires
        valid_utf8(bytes@),
    ensures
        from <= bytes@.len(),
        is_char_boundary(bytes@, from as int),
        decode_utf8(bytes@.skip(from as int)) == trim_start(decode_utf8(bytes@)),
{
    let n = bytes.len();
    let mut from: usize = 0;
    proof {
        assert(bytes@.skip(0) =~= bytes@);
    }
    while from < n
        invariant
            n == bytes@.len(),
            valid_utf8(bytes@),
            from <= n,
            is_char_boundary(bytes@, from as int),
            trim_start(decode_utf8(bytes@.skip(from as int))) == trim_start(decode_utf8(bytes@)),
        decreases n - from,
    {
        let (v, len) = decode_at(bytes, from);
        proof {
            lemma_scalar_at(bytes@, from as int);
            let rest = decode_utf8(bytes@.skip(from as int));
            assert(rest.first() == v as char);
            assert(rest.drop_first() =~= decode_utf8(bytes@.skip(from + len)));
        }
        if !scalar_is_whitespace(v) {
            return from;
        }
        from += len;
    }
    from
}

/// Finds the boundary at which the trailing whitespace of the text that
/// starts at `from` begins.
fn trailing_whitespace(bytes: &[u8], from: usize) -> (to: usize)
    requires
        valid_utf8(bytes@),
        is_char_boundary(bytes@, from as int),
        from <= bytes@.len(),
    ensures
        from <= to <= bytes@.len(),
        is_char_boundary(bytes@, to as int),
        decode_utf8(bytes@.subrange(from as int, to as int)) == trim_end(
            decode_utf8(bytes@.skip(from as int)),
        ),
{
    let n = bytes.len();
    let mut to: usize = n;
    proof {
        is_char_boundary_start_end_of_seq(bytes@);
    }
    while to > from
        invariant
            n == bytes@.len(),
            valid_utf8(bytes@),
            from <= to <= n,
            is_char_boundary(bytes@, from as int),
            is_char_boundary(bytes@, to as int),
            trim_end(decode_utf8(bytes@.subrange(from as int, to as int))) == trim_end(
                decode_utf8(bytes@.skip(from as int)),
            ),
        decreases to,
    {
        let start = start_of_last(bytes, from, to);
        let (v, len) = decode_at(bytes, start);
        proof {
            lemma_decode_between(bytes@, from as int, start as int, to as int);
            lemma_decode_one(bytes@, start as int);
            let part = decode_utf8(bytes@.subrange(from as int, to as int));
            assert(part.last() == v as char);
            assert(part.drop_last() =~= decode_utf8(bytes@.subrange(from as int, start as int)));
        }
        if !scalar_is_whitespace(v) {
            return to;
        }
        to = start;
    }
    to
}

/// Returns `s` without its leading and trailing whitespace. The result is
/// a part of `s`, not a copy.
pub fn trim<'a>(s: &'a str) -> (r: &'a str)
    ensures
        r@ == trimmed(s@),
{
    let bytes = s.as_bytes();
    proof {
        encode_utf8_valid_utf8(s@);
        encode_utf8_decode_utf8(s@);
    }
    let from = leading_whitespace(bytes);
    let to = trailing_whitespace(bytes, from);
    proof {
        lemma_between_boundaries(bytes@, from as int, to as int);
    }
    let (head, _) = s.split_at(to);
    let (_, r) = head.split_at(from);
    proof {
        encode_utf8_decode_utf8(r@);
        assert(r.spec_bytes() =~= bytes@.subrange(from as int, to as int));
    }
    r
}

} // verus!
