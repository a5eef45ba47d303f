//! Splitting a text into lines.

use vstd::prelude::*;
use vstd::string::*;
use vstd::utf8::*;
use crate::encoding::lemma_ascii_absent;
use crate::encoding::lemma_ascii_byte;
use crate::encoding::lemma_ascii_char;
use crate::encoding::lemma_decode_split;
use crate::text::after_first_line;
use crate::text::first_line;
use crate::text::lemma_first_break_is;

verus! {

/// Takes the first line off a text: the line without its terminator, and
/// what follows the terminator. The empty text has no first line. Both parts
/// are parts of `s`, not copies.
pub fn split_first_line<'a>(s: &'a str) -> (r: Option<(&'a str, &'a str)>)
    ensures
        r is None <==> s@.len() == 0,
        r matches Some((line, rest)) ==> line@ == first_line(s@) && rest@ == after_first_line(s@),
{
    let bytes = s.as_bytes();
    let n = bytes.len();
    proof {
        encode_utf8_valid_utf8(s@);
        encode_utf8_decode_utf8(s@);
    }
    if n == 0 {
        return None;
    }
    let mut i: usize = 0;
    while i < n && bytes[i] != 0x0A
        invariant
            n == bytes@.len(),
            0 <= i <= n,
            forall|j: int| 0 <= j < i ==> bytes@[j] != 0x0A,
        decreases n - i,
    {
        i += 1;
    }
    if i == n {
        // No line feed: the whole text is its first line.
        proof {
            lemma_ascii_absent(bytes@, 0x0A);
            lemma_first_break_is(s@, s@.len() as int);
            is_char_boundary_start_end_of_seq(bytes@);
        }
        let (line, rest) = s.split_at(n);
        proof {
            encode_utf8_decode_utf8(line@);
            assert(bytes@.subrange(0, n as int) =~= bytes@);
            assert(line@ == s@ && rest@.len() == 0);
        }
        return Some((line, rest));
    }
    proof {
        lemma_ascii_byte(bytes@, i as int);
        lemma_decode_split(bytes@, i as int);
    }
    let (head, tail) = s.split_at(i);
    proof {
        encode_utf8_decode_utf8(head@);
        encode_utf8_decode_utf8(tail@);
        lemma_ascii_byte(tail.spec_bytes(), 0);
    }
    let (_, rest) = tail.split_at(1);
    proof {
        // The first line feed of the text stands right behind `head`.
        encode_utf8_decode_utf8(rest@);
        assert(s@ == head@ + tail@);
        assert(tail@ == seq!['\n'] + rest@);
        lemma_ascii_absent(head.spec_bytes(), 0x0A);
        assert forall|k: int| 0 <= k < head@.len() implies s@[k] != '\n' by {
            assert(s@[k] == head@[k]);
        }
        lemma_first_break_is(s@, head@.len() as int);
        assert(s@.take(head@.len() as int) == head@);
        assert(s@.skip(head@.len() as int + 1) == rest@);
    }
    if i > 0 && bytes[i - 1] == 0x0D {
        proof {
            lemma_ascii_byte(head.spec_bytes(), i - 1);
            lemma_decode_split(head.spec_bytes(), i - 1);
        }
        let (line, _) = head.split_at(i - 1);
        proof {
            encode_utf8_decode_utf8(line@);
            assert(head@ == line@ + seq!['\r']);
        }
        Some((line, rest))
    } else {
        proof {
            if head@.len() > 0 && head@.last() == '\r' {
                // Then the byte before the line feed would be a carriage return.
                lemma_ascii_char(head@, head@.len() - 1, 0x0D);
            }
        }
        Some((head, rest))
    }
}

} // verus!
