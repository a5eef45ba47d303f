//! How the characters of a text and the bytes of its UTF-8 encoding
//! correspond. The functions of this crate walk the bytes of a `str`; these
//! lemmas carry what they find there over to its characters.

use vstd::prelude::*;
use vstd::utf8::*;
use crate::text::occurs_at;
use crate::text::occurs_in;

verus! {

/// The encoding of a concatenation is the concatenation of the encodings.
pub proof fn lemma_encode_concat(a: Seq<char>, b: Seq<char>)
    ensures
        encode_utf8(a + b) == encode_utf8(a) + encode_utf8(b),
    decreases a.len(),
{
    if a.len() > 0 {
        lemma_encode_concat(a.drop_first(), b);
        assert((a + b).drop_first() =~= a.drop_first() + b);
    }
}

/// A character below 128 is encoded as the one byte of the same value.
pub proof fn lemma_encode_ascii(c: char, v: u8)
    requires
        (c as u32) == v,
        v < 0x80,
    ensures
        encode_utf8(seq![c]) == seq![v],
{
    let w = c as u32;
    assert(leading_byte_width_1(w) == v) by (bit_vector)
        requires
            w == v,
            v < 0x80,
    ;
    reveal_with_fuel(encode_utf8, 2);
}

/// Splitting valid UTF-8 at a character boundary splits the decoded text.
pub proof fn lemma_decode_split(bytes: Seq<u8>, at: int)
    requires
        valid_utf8(bytes),
        is_char_boundary(bytes, at),
    ensures
        0 <= at <= bytes.len(),
        valid_utf8(bytes.take(at)),
        valid_utf8(bytes.skip(at)),
        decode_utf8(bytes) == decode_utf8(bytes.take(at)) + decode_utf8(bytes.skip(at)),
{
    valid_utf8_split(bytes, at);
    decode_utf8_split(bytes, at);
}

/// In valid UTF-8 an offset is a character boundary exactly if it is the end
/// or holds no continuation byte.
pub proof fn lemma_boundary_iff(bytes: Seq<u8>, at: int)
    requires
        valid_utf8(bytes),
        0 <= at <= bytes.len(),
    ensures
        is_char_boundary(bytes, at) <==> (at == bytes.len() || !is_continuation_byte(bytes[at])),
{
    if at == bytes.len() {
        is_char_boundary_start_end_of_seq(bytes);
    } else {
        is_char_boundary_iff_not_is_continuation_byte(bytes, at);
    }
}

/// The character that starts at a boundary: its bytes, the boundary behind
/// it, and how the decoded text goes on from there.
pub proof fn lemma_scalar_at(bytes: Seq<u8>, at: int)
    requires
        valid_utf8(bytes),
        is_char_boundary(bytes, at),
        at < bytes.len(),
    ensures
        0 <= at,
        valid_first_scalar(bytes.skip(at)),
        at + length_of_first_scalar(bytes.skip(at)) <= bytes.len(),
        is_char_boundary(bytes, at + length_of_first_scalar(bytes.skip(at))),
        forall|k: int|
            at < k < at + length_of_first_scalar(bytes.skip(at)) ==> is_continuation_byte(
                #[trigger] bytes[k],
            ),
        decode_utf8(bytes.skip(at)) == seq![decode_first_scalar(bytes.skip(at)) as char]
            + decode_utf8(bytes.skip(at + length_of_first_scalar(bytes.skip(at)))),
{
    lemma_decode_split(bytes, at);
    let tail = bytes.skip(at);
    let len = length_of_first_scalar(tail);
    let next = pop_first_scalar(tail);
    assert(valid_first_scalar(tail) && valid_utf8(next));
    assert(next =~= bytes.skip(at + len));
    lemma_boundary_iff(bytes, at + len);
}

/// Where a prefix of valid UTF-8 is valid UTF-8 itself, it ends at a character
/// boundary.
pub proof fn lemma_valid_prefix_ends_at_boundary(bytes: Seq<u8>, m: int)
    requires
        valid_utf8(bytes),
        0 <= m <= bytes.len(),
        valid_utf8(bytes.take(m)),
    ensures
        is_char_boundary(bytes, m),
    decreases m,
{
    if m != 0 {
        let head = bytes.take(m);
        let len = length_of_first_scalar(bytes);
        assert(pop_first_scalar(head) =~= pop_first_scalar(bytes).take(m - len));
        lemma_valid_prefix_ends_at_boundary(pop_first_scalar(bytes), m - len);
    }
}

/// A text occurs in another exactly if its encoding occurs in the encoding
/// of the other: a search through the bytes finds what a search through the
/// characters finds.
pub proof fn lemma_occurs_in_encoded(hay: Seq<char>, needle: Seq<char>)
    ensures
        occurs_in(encode_utf8(hay), encode_utf8(needle)) <==> occurs_in(hay, needle),
{
    let eh = encode_utf8(hay);
    let en = encode_utf8(needle);
    encode_utf8_valid_utf8(hay);
    encode_utf8_valid_utf8(needle);
    encode_utf8_decode_utf8(hay);
    encode_utf8_decode_utf8(needle);
    if occurs_in(hay, needle) {
        let at = choose|at: int| occurs_at(hay, needle, at);
        let before = hay.take(at);
        let after = hay.skip(at + needle.len());
        assert(hay =~= before + needle + after);
        lemma_encode_concat(before + needle, after);
        lemma_encode_concat(before, needle);
        let p = encode_utf8(before).len() as int;
        assert(occurs_at(eh, en, p));
    }
    if occurs_in(eh, en) {
        let p = choose|p: int| occurs_at(eh, en, p);
        if needle.len() == 0 {
            assert(occurs_at(hay, needle, 0));
        } else {
            let m = en.len() as int;
            lemma_boundary_iff(eh, p);
            lemma_decode_split(eh, p);
            let tail = eh.skip(p);
            assert(tail.take(m) =~= en);
            lemma_valid_prefix_ends_at_boundary(tail, m);
            lemma_decode_split(tail, m);
            assert(occurs_at(hay, needle, decode_utf8(eh.take(p)).len() as int));
        }
    }
}

/// A byte below 128 in valid UTF-8 is a character of its own: it stands at a
/// boundary, and the text decoded from there begins with the character of
/// that value.
pub proof fn lemma_ascii_byte(bytes: Seq<u8>, at: int)
    requires
        valid_utf8(bytes),
        0 <= at < bytes.len(),
        bytes[at] < 0x80,
    ensures
        is_char_boundary(bytes, at),
        is_char_boundary(bytes, at + 1),
        decode_utf8(bytes.skip(at)) == seq![bytes[at] as char] + decode_utf8(bytes.skip(at + 1)),
{
    lemma_boundary_iff(bytes, at);
    lemma_scalar_at(bytes, at);
    let b = bytes[at];
    assert(b & 0x7F == b) by (bit_vector)
        requires
            b < 0x80,
    ;
}

/// A character below 128 shows in the encoding as the byte of its value, at
/// the offset that the encoding of the characters before it ends at.
pub proof fn lemma_ascii_char(s: Seq<char>, k: int, v: u8)
    requires
        0 <= k < s.len(),
        (s[k] as u32) == v,
        v < 0x80,
    ensures
        encode_utf8(s) == encode_utf8(s.take(k)) + seq![v] + encode_utf8(s.skip(k + 1)),
{
    let before = s.take(k);
    let after = s.skip(k + 1);
    assert(s =~= before + seq![s[k]] + after);
    lemma_encode_concat(before + seq![s[k]], after);
    lemma_encode_concat(before, seq![s[k]]);
    lemma_encode_ascii(s[k], v);
}

/// Valid UTF-8 without a given byte below 128 decodes to a text without the
/// character of that value.
pub proof fn lemma_ascii_absent(bytes: Seq<u8>, v: u8)
    requires
        valid_utf8(bytes),
        v < 0x80,
        forall|j: int| 0 <= j < bytes.len() ==> bytes[j] != v,
    ensures
        forall|k: int| 0 <= k < decode_utf8(bytes).len() ==> (decode_utf8(bytes)[k] as u32) != v,
{
    let s = decode_utf8(bytes);
    decode_utf8_encode_utf8(bytes);
    assert forall|k: int| 0 <= k < s.len() implies (s[k] as u32) != v by {
        if (s[k] as u32) == v {
            lemma_ascii_char(s, k, v);
            let j = encode_utf8(s.take(k)).len() as int;
            assert(bytes[j] == v);
        }
    }
}

/// Between two character boundaries of valid UTF-8 stands valid UTF-8, and
/// the earlier boundary is one of the prefix that ends at the later.
pub proof fn lemma_between_boundaries(bytes: Seq<u8>, from: int, to: int)
    requires
        valid_utf8(bytes),
        is_char_boundary(bytes, from),
        is_char_boundary(bytes, to),
        from <= to,
    ensures
        0 <= from <= to <= bytes.len(),
        valid_utf8(bytes.take(to)),
        is_char_boundary(bytes.take(to), from),
        valid_utf8(bytes.subrange(from, to)),
{
    lemma_decode_split(bytes, to);
    let head = bytes.take(to);
    if from < to {
        lemma_boundary_iff(bytes, from);
    }
    lemma_boundary_iff(head, from);
    lemma_decode_split(head, from);
    assert(head.skip(from) =~= bytes.subrange(from, to));
}

/// The text between two boundaries splits at every boundary in between.
pub proof fn lemma_decode_between(bytes: Seq<u8>, from: int, mid: int, to: int)
    requires
        valid_utf8(bytes),
        is_char_boundary(bytes, from),
        is_char_boundary(bytes, mid),
        is_char_boundary(bytes, to),
        from <= mid <= to,
    ensures
        decode_utf8(bytes.subrange(from, to)) == decode_utf8(bytes.subrange(from, mid))
            + decode_utf8(bytes.subrange(mid, to)),
{
    lemma_between_boundaries(bytes, from, to);
    let part = bytes.subrange(from, to);
    if mid < to {
        lemma_boundary_iff(bytes, mid);
    }
    lemma_boundary_iff(part, mid - from);
    lemma_decode_split(part, mid - from);
    assert(part.take(mid - from) =~= bytes.subrange(from, mid));
    assert(part.skip(mid - from) =~= bytes.subrange(mid, to));
}

/// The bytes of one character, from its boundary to the next, decode to
/// that character alone.
pub proof fn lemma_decode_one(bytes: Seq<u8>, at: int)
    requires
        valid_utf8(bytes),
        is_char_boundary(bytes, at),
        at < bytes.len(),
    ensures
        decode_utf8(bytes.subrange(at, at + length_of_first_scalar(bytes.skip(at)))) == seq![
            decode_first_scalar(bytes.skip(at)) as char,
        ],
{
    lemma_scalar_at(bytes, at);
    let tail = bytes.skip(at);
    let len = length_of_first_scalar(tail);
    lemma_between_boundaries(bytes, at, at + len);
    let one = bytes.subrange(at, at + len);
    assert(pop_first_scalar(one) =~= Seq::<u8>::empty());
    assert(decode_utf8(Seq::<u8>::empty()) =~= Seq::<char>::empty());
}

/// What a well-formed first character decodes to is a Unicode scalar value.
pub proof fn lemma_first_scalar_in_range(bytes: Seq<u8>)
    requires
        valid_first_scalar(bytes),
    ensures
        is_scalar(decode_first_scalar(bytes)),
{
    let b0 = bytes[0];
    if is_leading_byte_width_1(b0) {
        assert((b0 & 0x7F) as u32 <= 0x7F) by (bit_vector);
    } else if is_leading_byte_width_2(b0) {
        let b1 = bytes[1];
        assert((((b0 & 0x1F) as u32) << 6) | ((b1 & 0x3F) as u32) <= 0x7FF) by (bit_vector);
    } else if is_leading_byte_width_3(b0) {
        let b1 = bytes[1];
        let b2 = bytes[2];
        assert((((b0 & 0x0F) as u32) << 12) | (((b1 & 0x3F) as u32) << 6) | ((b2 & 0x3F) as u32)
            <= 0xFFFF) by (bit_vector);
    }
}

} // verus!
