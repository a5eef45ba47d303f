//! The mathematical model of text that the contracts of this crate speak of:
//! a text is a `Seq<char>`, and lines, containment and trimming are functions
//! on such sequences.

use vstd::prelude::*;

verus! {

/// True for the characters that carry the Unicode property `White_Space`.
pub open spec fn is_whitespace(c: char) -> bool {
    let v = c as u32;
    ||| 0x09 <= v <= 0x0D
    ||| v == 0x20
    ||| v == 0x85
    ||| v == 0xA0
    ||| v == 0x1680
    ||| 0x2000 <= v <= 0x200A
    ||| v == 0x2028
    ||| v == 0x2029
    ||| v == 0x202F
    ||| v == 0x205F
    ||| v == 0x3000
}

/// `needle` stands in `hay` at offset `at`.
pub open spec fn occurs_at<T>(hay: Seq<T>, needle: Seq<T>, at: int) -> bool {
    &&& 0 <= at
    &&& at + needle.len() <= hay.len()
    &&& hay.subrange(at, at + needle.len()) =~= needle
}

/// `needle` stands somewhere in `hay` as a contiguous run. The empty sequence
/// occurs in every sequence.
pub open spec fn occurs_in<T>(hay: Seq<T>, needle: Seq<T>) -> bool {
    exists|at: int| occurs_at(hay, needle, at)
}

/// `s` without its leading whitespace.
pub open spec fn trim_start(s: Seq<char>) -> Seq<char>
    decreases s.len(),
{
    if s.len() > 0 && is_whitespace(s.first()) {
        trim_start(s.drop_first())
    } else {
        s
    }
}

/// `s` without its trailing whitespace.
pub open spec fn trim_end(s: Seq<char>) -> Seq<char>
    decreases s.len(),
{
    if s.len() > 0 && is_whitespace(s.last()) {
        trim_end(s.drop_last())
    } else {
        s
    }
}

/// `s` without its leading and trailing whitespace.
pub open spec fn trimmed(s: Seq<char>) -> Seq<char> {
    trim_end(trim_start(s))
}

/// `s` neither begins nor ends with a whitespace character.
pub open spec fn is_trimmed(s: Seq<char>) -> bool {
    s.len() > 0 ==> !is_whitespace(s.first()) && !is_whitespace(s.last())
}

/// The number of characters before the first line feed of `s`, or the length
/// of `s` where it holds none.
pub open spec fn first_break(s: Seq<char>) -> int
    decreases s.len(),
{
    if s.len() == 0 || s.first() == '\n' {
        0
    } else {
        1 + first_break(s.drop_first())
    }
}

/// `line` without the carriage return that ends it, if one does.
pub open spec fn strip_cr(line: Seq<char>) -> Seq<char> {
    if line.len() > 0 && line.last() == '\r' {
        line.drop_last()
    } else {
        line
    }
}

/// The first line of a non-empty text, without its terminator. A line ends
/// with a line feed, or with a carriage return directly followed by one. What
/// follows the last line feed is a line too, and keeps a carriage return at its
/// end.
pub open spec fn first_line(s: Seq<char>) -> Seq<char> {
    let n = first_break(s);
    if n == s.len() {
        s
    } else {
        strip_cr(s.take(n))
    }
}

/// What follows the first line of `s` and its terminator.
pub open spec fn after_first_line(s: Seq<char>) -> Seq<char> {
    let n = first_break(s);
    if n == s.len() {
        Seq::empty()
    } else {
        s.skip(n + 1)
    }
}

/// The lines of `s`, in order and without their terminators. The empty text
/// has no line, and a terminator at the very end opens no further line.
pub open spec fn lines_of(s: Seq<char>) -> Seq<Seq<char>>
    decreases s.len(),
    via lines_of_terminates
{
    if s.len() == 0 {
        Seq::empty()
    } else {
        seq![first_line(s)] + lines_of(after_first_line(s))
    }
}

#[via_fn]
proof fn lines_of_terminates(s: Seq<char>) {
    lemma_first_break(s);
}

/// The first line feed of `s`, if any, stands at `first_break(s)`, and no
/// line feed stands before it.
pub proof fn lemma_first_break(s: Seq<char>)
    ensures
        0 <= first_break(s) <= s.len(),
        first_break(s) < s.len() ==> s[first_break(s)] == '\n',
        forall|i: int| 0 <= i < first_break(s) ==> s[i] != '\n',
    decreases s.len(),
{
    if s.len() > 0 && s.first() != '\n' {
        let t = s.drop_first();
        lemma_first_break(t);
        assert forall|i: int| 0 <= i < first_break(s) implies s[i] != '\n' by {
            if i > 0 {
                assert(s[i] == t[i - 1]);
            }
        }
    }
}

/// An offset with no line feed before it, which is the end of `s` or holds a
/// line feed, is `first_break(s)`.
pub proof fn lemma_first_break_is(s: Seq<char>, n: int)
    requires
        0 <= n <= s.len(),
        forall|i: int| 0 <= i < n ==> s[i] != '\n',
        n < s.len() ==> s[n] == '\n',
    ensures
        first_break(s) == n,
{
    lemma_first_break(s);
}

/// Trimming the start leaves a suffix of `s` that does not begin with
/// whitespace, and all that it removes is whitespace.
pub proof fn lemma_trim_start(s: Seq<char>)
    ensures
        trim_start(s).len() <= s.len(),
        trim_start(s) == s.skip(s.len() - trim_start(s).len()),
        trim_start(s).len() > 0 ==> !is_whitespace(trim_start(s).first()),
        forall|i: int| 0 <= i < s.len() - trim_start(s).len() ==> is_whitespace(s[i]),
    decreases s.len(),
{
    if s.len() > 0 && is_whitespace(s.first()) {
        let t = s.drop_first();
        lemma_trim_start(t);
        assert forall|i: int| 0 <= i < s.len() - trim_start(s).len() implies is_whitespace(
            s[i],
        ) by {
            if i > 0 {
                assert(s[i] == t[i - 1]);
            }
        }
    }
}

/// Trimming the end leaves a prefix of `s` that does not end with whitespace,
/// and all that it removes is whitespace.
pub proof fn lemma_trim_end(s: Seq<char>)
    ensures
        trim_end(s).len() <= s.len(),
        trim_end(s) == s.take(trim_end(s).len() as int),
        trim_end(s).len() > 0 ==> !is_whitespace(trim_end(s).last()),
        forall|i: int| trim_end(s).len() <= i < s.len() ==> is_whitespace(s[i]),
    decreases s.len(),
{
    if s.len() > 0 && is_whitespace(s.last()) {
        let t = s.drop_last();
        lemma_trim_end(t);
        assert forall|i: int| trim_end(s).len() <= i < s.len() implies is_whitespace(s[i]) by {
            if i < t.len() {
                assert(s[i] == t[i]);
            }
        }
    }
}

/// A trimmed text is a contiguous part of the text it was made from, begins
/// and ends with no whitespace, and is enclosed by whitespace only.
pub proof fn lemma_trimmed(s: Seq<char>)
    ensures
        is_trimmed(trimmed(s)),
        ({
            let from = s.len() - trim_start(s).len();
            let to = from + trimmed(s).len();
            &&& 0 <= from <= to <= s.len()
            &&& trimmed(s) == s.subrange(from, to)
            &&& forall|i: int| 0 <= i < from || to <= i < s.len() ==> is_whitespace(s[i])
        }),
{
    let m = trim_start(s);
    lemma_trim_start(s);
    lemma_trim_end(m);
    let from = s.len() - m.len();
    let to = from + trimmed(s).len();
    assert forall|i: int| 0 <= i < from || to <= i < s.len() implies is_whitespace(s[i]) by {
        if to <= i {
            assert(s[i] == m[i - from]);
        }
    }
}

/// What occurs in a part of a text occurs in the text.
pub proof fn lemma_occurs_in_part<T>(whole: Seq<T>, part: Seq<T>, piece: Seq<T>)
    requires
        occurs_in(whole, part),
        occurs_in(part, piece),
    ensures
        occurs_in(whole, piece),
{
    let outer = choose|at: int| occurs_at(whole, part, at);
    let inner = choose|at: int| occurs_at(part, piece, at);
    assert(whole.subrange(outer + inner, outer + inner + piece.len()) =~= part.subrange(
        inner,
        inner + piece.len(),
    ));
    assert(occurs_at(whole, piece, outer + inner));
}

/// Every line of a text is a contiguous part of it.
pub proof fn lemma_line_is_part(s: Seq<char>, j: int)
    requires
        0 <= j < lines_of(s).len(),
    ensures
        occurs_in(s, lines_of(s)[j]),
    decreases s.len(),
{
    lemma_first_break(s);
    let n = first_break(s);
    if j == 0 {
        assert(occurs_at(s, first_line(s), 0));
    } else {
        let rest = after_first_line(s);
        lemma_line_is_part(rest, j - 1);
        assert(occurs_at(s, rest, n + 1));
        lemma_occurs_in_part(s, rest, lines_of(rest)[j - 1]);
    }
}

} // verus!
