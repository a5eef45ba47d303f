//! The search itself: the lines of a text that contain a query, trimmed and
//! in their order.

use vstd::prelude::*;
use crate::find::contains;
use crate::lines::split_first_line;
use crate::lowercase::lowercase_of;
use crate::lowercase::to_lowercase;
use crate::text::after_first_line;
use crate::text::first_line;
use crate::text::is_trimmed;
use crate::text::lemma_first_break;
use crate::text::lemma_line_is_part;
use crate::text::lemma_occurs_in_part;
use crate::text::lemma_trimmed;
use crate::text::lines_of;
use crate::text::occurs_at;
use crate::text::occurs_in;
use crate::text::trim_start;
use crate::text::trimmed;
use crate::trim::trim;

verus! {

/// The test that a line passes if `query` occurs in it as it stands.
pub open spec fn holds(query: Seq<char>) -> spec_fn(Seq<char>) -> bool {
    |line: Seq<char>| occurs_in(line, query)
}

/// The test that a line passes if `lowered` occurs in its lowercase form.
pub open spec fn holds_lowered(lowered: Seq<char>) -> spec_fn(Seq<char>) -> bool {
    |line: Seq<char>| occurs_in(lowercase_of(line), lowered)
}

/// The lines among `lines` that pass `keep`, each trimmed, in their order.
pub open spec fn select(lines: Seq<Seq<char>>, keep: spec_fn(Seq<char>) -> bool) -> Seq<
    Seq<char>,
> {
    lines.filter(keep).map_values(|line: Seq<char>| trimmed(line))
}

/// The positions of the lines among `lines` that pass `keep`, ascending.
pub open spec fn kept(lines: Seq<Seq<char>>, keep: spec_fn(Seq<char>) -> bool) -> Seq<int>
    decreases lines.len(),
{
    if lines.len() == 0 {
        Seq::empty()
    } else if keep(lines.last()) {
        kept(lines.drop_last(), keep).push(lines.len() - 1)
    } else {
        kept(lines.drop_last(), keep)
    }
}

/// What a case-sensitive search for `query` in `contents` finds.
pub open spec fn search_result(query: Seq<char>, contents: Seq<char>) -> Seq<Seq<char>> {
    select(lines_of(contents), holds(query))
}

/// What a case-insensitive search for `query` in `contents` finds: query and
/// line are each lowercased before the one is looked for in the other.
pub open spec fn search_result_case_insensitive(query: Seq<char>, contents: Seq<char>) -> Seq<
    Seq<char>,
> {
    select(lines_of(contents), holds_lowered(lowercase_of(query)))
}

/// Trimming spares the query in each of `lines`: where the query occurs in
/// a line, it occurs in the trimmed line too.
pub open spec fn trimming_spares(query: Seq<char>, lines: Seq<Seq<char>>) -> bool {
    forall|j: int|
        0 <= j < lines.len() && occurs_in(#[trigger] lines[j], query) ==> occurs_in(
            trimmed(lines[j]),
            query,
        )
}

/// Lowercasing keeps the query in each of `lines`: where the query occurs
/// in a line, its lowercase form occurs in the lowercase form of the line.
/// Lowercasing goes by context in places, so this is not so of every text.
pub open spec fn lowercasing_keeps(query: Seq<char>, lines: Seq<Seq<char>>) -> bool {
    forall|j: int|
        0 <= j < lines.len() && occurs_in(#[trigger] lines[j], query) ==> occurs_in(
            lowercase_of(lines[j]),
            lowercase_of(query),
        )
}

/// Selecting from the lines of a text deals with the first line and then
/// with the lines of the rest.
proof fn lemma_select_first_line(text: Seq<char>, keep: spec_fn(Seq<char>) -> bool)
    requires
        text.len() > 0,
    ensures
        after_first_line(text).len() < text.len(),
        select(lines_of(text), keep) == (if keep(first_line(text)) {
            seq![trimmed(first_line(text))]
        } else {
            Seq::empty()
        }) + select(lines_of(after_first_line(text)), keep),
{
    lemma_first_break(text);
    lines_of(after_first_line(text)).lemma_filter_prepend(first_line(text), keep);
}

/// Collects the trimmed lines of `contents` that hold `needle`; with `fold`
/// set, a line is lowercased before `needle` is looked for in it.
fn collect<'a>(needle: &str, contents: &'a str, fold: bool) -> (result: Vec<&'a str>)
    ensures
        result.deep_view() == select(
            lines_of(contents@),
            if fold {
                holds_lowered(needle@)
            } else {
                holds(needle@)
            },
        ),
{
    let ghost keep = if fold {
        holds_lowered(needle@)
    } else {
        holds(needle@)
    };
    let mut result: Vec<&'a str> = Vec::new();
    let mut rest: &'a str = contents;
    loop
        invariant
            keep == (if fold {
                holds_lowered(needle@)
            } else {
                holds(needle@)
            }),
            result.deep_view() + select(lines_of(rest@), keep) == select(
                lines_of(contents@),
                keep,
            ),
        decreases rest@.len(),
    {
        match split_first_line(rest) {
            None => {
                assert(select(lines_of(rest@), keep).len() == 0);
                return result;
            },
            Some((line, tail)) => {
                proof {
                    lemma_select_first_line(rest@, keep);
                }
                let ghost before = result.deep_view();
                let found = if fold {
                    let lowered = to_lowercase(line);
                    contains(lowered.as_str(), needle)
                } else {
                    contains(line, needle)
                };
                assert(found == keep(line@));
                if found {
                    result.push(trim(line));
                    assert(result.deep_view() == before + seq![trimmed(line@)]);
                }
                rest = tail;
            },
        }
    }
}

/// Returns the lines of `contents` in which `query` occurs, each without its
/// leading and trailing whitespace, in the order of the text. The empty
/// query occurs in every line.
pub fn search<'a>(query: &'a str, contents: &'a str) -> (result: Vec<&'a str>)
    ensures
        result.deep_view() == search_result(query@, contents@),
{
    collect(query, contents, false)
}

/// Returns the lines of `contents` whose lowercase form holds the lowercase
/// form of `query`, each without its leading and trailing whitespace, in the
/// order of the text.
pub fn search_case_insensitive<'a>(query: &'a str, contents: &'a str) -> (result: Vec<&'a str>)
    ensures
        result.deep_view() == search_result_case_insensitive(query@, contents@),
{
    let lowered = to_lowercase(query);
    collect(lowered.as_str(), contents, true)
}

/// A selection holds, in the order of the text, the trimmed form of each line
/// that passes the test, and nothing else: its entries stand for the kept
/// positions one by one, these ascend, and no position that passes is
/// missing.
pub proof fn lemma_select_by_position(lines: Seq<Seq<char>>, keep: spec_fn(Seq<char>) -> bool)
    ensures
        ({
            let found = select(lines, keep);
            let at = kept(lines, keep);
            &&& at.len() == found.len()
            &&& forall|i: int|
                #![trigger at[i]]
                #![trigger found[i]]
                0 <= i < at.len() ==> 0 <= at[i] < lines.len() && keep(lines[at[i]]) && found[i]
                    == trimmed(lines[at[i]])
            &&& forall|i: int, k: int| 0 <= i < k < at.len() ==> #[trigger] at[i] < #[trigger] at[k]
            &&& forall|j: int|
                0 <= j < lines.len() && keep(#[trigger] lines[j]) ==> at.contains(j)
        }),
    decreases lines.len(),
{
    reveal(Seq::filter);
    if lines.len() > 0 {
        let at = kept(lines, keep);
        let front = lines.drop_last();
        let front_at = kept(front, keep);
        lemma_select_by_position(front, keep);
        assert forall|i: int| 0 <= i < front_at.len() implies lines[#[trigger] front_at[i]]
            == front[front_at[i]] by {}
        assert forall|j: int| 0 <= j < lines.len() && keep(#[trigger] lines[j]) implies at.contains(
            j,
        ) by {
            if j < lines.len() - 1 {
                assert(keep(front[j]));
                let i = choose|i: int| 0 <= i < front_at.len() && front_at[i] == j;
                assert(at[i] == j);
            } else {
                assert(at[at.len() - 1] == j);
            }
        }
    }
}

/// A case-sensitive search finds the lines that hold the query, all of them
/// and in the order of the text: each result is the trimmed form of a line in
/// which the query occurs (`at` gives its position), later results come
/// from later lines, and the position of every line in which the query
/// occurs is among them.
pub proof fn lemma_search_finds_the_matching_lines(query: Seq<char>, contents: Seq<char>)
    ensures
        ({
            let lines = lines_of(contents);
            let found = search_result(query, contents);
            let at = kept(lines, holds(query));
            &&& at.len() == found.len()
            &&& forall|i: int|
                #![trigger at[i]]
                #![trigger found[i]]
                0 <= i < found.len() ==> 0 <= at[i] < lines.len() && occurs_in(lines[at[i]], query)
                    && found[i] == trimmed(lines[at[i]])
            &&& forall|i: int, k: int|
                0 <= i < k < found.len() ==> #[trigger] at[i] < #[trigger] at[k]
            &&& forall|j: int|
                0 <= j < lines.len() && occurs_in(#[trigger] lines[j], query) ==> at.contains(j)
        }),
{
    let lines = lines_of(contents);
    lemma_select_by_position(lines, holds(query));
    assert forall|j: int|
        0 <= j < lines.len() && occurs_in(#[trigger] lines[j], query) implies kept(
        lines,
        holds(query),
    ).contains(j) by {
        assert(holds(query)(lines[j]));
    }
}

/// A case-insensitive search finds the lines whose lowercase form holds the
/// lowercase form of the query, all of them and in the order of the text.
pub proof fn lemma_case_insensitive_search_finds_the_matching_lines(
    query: Seq<char>,
    contents: Seq<char>,
)
    ensures
        ({
            let lines = lines_of(contents);
            let found = search_result_case_insensitive(query, contents);
            let at = kept(lines, holds_lowered(lowercase_of(query)));
            &&& at.len() == found.len()
            &&& forall|i: int|
                #![trigger at[i]]
                #![trigger found[i]]
                0 <= i < found.len() ==> 0 <= at[i] < lines.len() && occurs_in(
                    lowercase_of(lines[at[i]]),
                    lowercase_of(query),
                ) && found[i] == trimmed(lines[at[i]])
            &&& forall|i: int, k: int|
                0 <= i < k < found.len() ==> #[trigger] at[i] < #[trigger] at[k]
            &&& forall|j: int|
                0 <= j < lines.len() && occurs_in(
                    lowercase_of(#[trigger] lines[j]),
                    lowercase_of(query),
                ) ==> at.contains(j)
        }),
{
    let lines = lines_of(contents);
    let keep = holds_lowered(lowercase_of(query));
    lemma_select_by_position(lines, keep);
    assert forall|j: int|
        0 <= j < lines.len() && occurs_in(
            lowercase_of(#[trigger] lines[j]),
            lowercase_of(query),
        ) implies kept(lines, keep).contains(j) by {
        assert(keep(lines[j]));
    }
}

/// A query that neither begins nor ends with whitespace occurs in the
/// trimmed form of every line in which it occurs.
pub proof fn lemma_trimming_spares_a_trimmed_query(query: Seq<char>, line: Seq<char>)
    requires
        is_trimmed(query),
        occurs_in(line, query),
    ensures
        occurs_in(trimmed(line), query),
{
    lemma_trimmed(line);
    if query.len() == 0 {
        assert(occurs_at(trimmed(line), query, 0));
    } else {
        // The query begins and ends with no whitespace, so where it stands
        // in the line it stands clear of the whitespace that is cut off.
        let at = choose|at: int| occurs_at(line, query, at);
        let from = line.len() - trim_start(line).len();
        let part = line.subrange(at, at + query.len());
        assert(part.first() == line[at] && part.last() == line[at + query.len() - 1]);
        assert(occurs_at(trimmed(line), query, at - from));
    }
}

/// Where trimming spares the query, every line that a case-sensitive search
/// returns holds the query. Where it does not, a result may lack it: the
/// query is looked for in the line as it stands, and the line is trimmed
/// afterwards.
pub proof fn lemma_search_results_hold_the_query(query: Seq<char>, contents: Seq<char>)
    requires
        trimming_spares(query, lines_of(contents)),
    ensures
        forall|i: int|
            0 <= i < search_result(query, contents).len() ==> occurs_in(
                #[trigger] search_result(query, contents)[i],
                query,
            ),
{
    let lines = lines_of(contents);
    let at = kept(lines, holds(query));
    lemma_select_by_position(lines, holds(query));
    assert forall|i: int| 0 <= i < search_result(query, contents).len() implies occurs_in(
        #[trigger] search_result(query, contents)[i],
        query,
    ) by {
        assert(holds(query)(lines[at[i]]));
    }
}

/// Every line that a case-sensitive search for a query without whitespace at
/// its ends returns holds the query.
pub proof fn lemma_search_results_hold_a_trimmed_query(query: Seq<char>, contents: Seq<char>)
    requires
        is_trimmed(query),
    ensures
        forall|i: int|
            0 <= i < search_result(query, contents).len() ==> occurs_in(
                #[trigger] search_result(query, contents)[i],
                query,
            ),
{
    let lines = lines_of(contents);
    assert forall|j: int| 0 <= j < lines.len() && occurs_in(#[trigger] lines[j], query) implies occurs_in(
        trimmed(lines[j]),
        query,
    ) by {
        lemma_trimming_spares_a_trimmed_query(query, lines[j]);
    }
    lemma_search_results_hold_the_query(query, contents);
}

/// Where lowercasing keeps the query, a case-insensitive search finds every
/// line that the case-sensitive search finds: each position kept by the one
/// is kept by the other, and each line returned by the one is returned by
/// the other.
pub proof fn lemma_case_insensitive_search_finds_no_less(query: Seq<char>, contents: Seq<char>)
    requires
        lowercasing_keeps(query, lines_of(contents)),
    ensures
        ({
            let lines = lines_of(contents);
            let exact = search_result(query, contents);
            let folded = search_result_case_insensitive(query, contents);
            let exact_at = kept(lines, holds(query));
            let folded_at = kept(lines, holds_lowered(lowercase_of(query)));
            &&& forall|i: int|
                0 <= i < exact_at.len() ==> folded_at.contains(#[trigger] exact_at[i])
            &&& forall|i: int| 0 <= i < exact.len() ==> folded.contains(#[trigger] exact[i])
        }),
{
    let lines = lines_of(contents);
    let exact = search_result(query, contents);
    let folded = search_result_case_insensitive(query, contents);
    let exact_at = kept(lines, holds(query));
    let folded_at = kept(lines, holds_lowered(lowercase_of(query)));
    lemma_select_by_position(lines, holds(query));
    lemma_select_by_position(lines, holds_lowered(lowercase_of(query)));
    assert forall|i: int| 0 <= i < exact_at.len() implies folded_at.contains(
        #[trigger] exact_at[i],
    ) by {
        let j = exact_at[i];
        assert(holds(query)(lines[j]));
        assert(holds_lowered(lowercase_of(query))(lines[j]));
    }
    assert forall|i: int| 0 <= i < exact.len() implies folded.contains(#[trigger] exact[i]) by {
        let j = exact_at[i];
        assert(folded_at.contains(j));
        let k = choose|k: int| 0 <= k < folded_at.len() && folded_at[k] == j;
        assert(folded[k] == exact[i]);
    }
}

/// No line of a selection begins or ends with whitespace, whatever the
/// test by which the lines were chosen.
pub proof fn lemma_selected_lines_are_trimmed(
    lines: Seq<Seq<char>>,
    keep: spec_fn(Seq<char>) -> bool,
)
    ensures
        forall|i: int|
            0 <= i < select(lines, keep).len() ==> is_trimmed(#[trigger] select(lines, keep)[i]),
{
    assert forall|i: int| 0 <= i < select(lines, keep).len() implies is_trimmed(
        #[trigger] select(lines, keep)[i],
    ) by {
        lemma_trimmed(lines.filter(keep)[i]);
    }
}

/// No line that either search returns begins or ends with whitespace.
pub proof fn lemma_search_results_are_trimmed(query: Seq<char>, contents: Seq<char>)
    ensures
        forall|i: int|
            0 <= i < search_result(query, contents).len() ==> is_trimmed(
                #[trigger] search_result(query, contents)[i],
            ),
        forall|i: int|
            0 <= i < search_result_case_insensitive(query, contents).len() ==> is_trimmed(
                #[trigger] search_result_case_insensitive(query, contents)[i],
            ),
{
    lemma_selected_lines_are_trimmed(lines_of(contents), holds(query));
    lemma_selected_lines_are_trimmed(lines_of(contents), holds_lowered(lowercase_of(query)));
}

/// Every line that either search returns is a contiguous part of the
/// contents.
pub proof fn lemma_search_results_are_parts_of_the_contents(
    query: Seq<char>,
    contents: Seq<char>,
)
    ensures
        forall|i: int|
            0 <= i < search_result(query, contents).len() ==> occurs_in(
                contents,
                #[trigger] search_result(query, contents)[i],
            ),
        forall|i: int|
            0 <= i < search_result_case_insensitive(query, contents).len() ==> occurs_in(
                contents,
                #[trigger] search_result_case_insensitive(query, contents)[i],
            ),
{
    lemma_selected_lines_are_parts(contents, holds(query));
    lemma_selected_lines_are_parts(contents, holds_lowered(lowercase_of(query)));
}

/// Every line selected from the lines of a text is a contiguous part of the
/// text.
proof fn lemma_selected_lines_are_parts(text: Seq<char>, keep: spec_fn(Seq<char>) -> bool)
    ensures
        forall|i: int|
            0 <= i < select(lines_of(text), keep).len() ==> occurs_in(
                text,
                #[trigger] select(lines_of(text), keep)[i],
            ),
{
    let lines = lines_of(text);
    let found = select(lines, keep);
    let at = kept(lines, keep);
    lemma_select_by_position(lines, keep);
    assert forall|i: int| 0 <= i < found.len() implies occurs_in(text, #[trigger] found[i]) by {
        let line = lines[at[i]];
        lemma_line_is_part(text, at[i]);
        lemma_trimmed(line);
        let from = line.len() - trim_start(line).len();
        assert(occurs_at(line, trimmed(line), from));
        lemma_occurs_in_part(text, line, trimmed(line));
    }
}

/// A test that every entry passes filters nothing out.
proof fn lemma_keeping_all(lines: Seq<Seq<char>>, keep: spec_fn(Seq<char>) -> bool)
    requires
        forall|j: int| 0 <= j < lines.len() ==> keep(#[trigger] lines[j]),
    ensures
        lines.filter(keep) == lines,
    decreases lines.len(),
{
    reveal(Seq::filter);
    if lines.len() > 0 {
        let front = lines.drop_last();
        assert forall|j: int| 0 <= j < front.len() implies keep(#[trigger] front[j]) by {
            assert(front[j] == lines[j]);
        }
        lemma_keeping_all(front, keep);
        assert(front.push(lines.last()) == lines);
    }
}

/// The empty query occurs in every line, so a search for it returns every
/// line of the text, trimmed.
pub proof fn lemma_empty_query_finds_every_line(contents: Seq<char>)
    ensures
        search_result(Seq::empty(), contents) == lines_of(contents).map_values(
            |line: Seq<char>| trimmed(line),
        ),
{
    let lines = lines_of(contents);
    let keep = holds(Seq::empty());
    assert forall|j: int| 0 <= j < lines.len() implies keep(#[trigger] lines[j]) by {
        assert(occurs_at(lines[j], Seq::<char>::empty(), 0));
    }
    lemma_keeping_all(lines, keep);
}

/// A search is a function of its query and contents: whatever two runs on
/// the same inputs return, they return the same lines in the same order.
pub proof fn lemma_search_is_repeatable(
    query: Seq<char>,
    contents: Seq<char>,
    first: Vec<&str>,
    second: Vec<&str>,
)
    requires
        ({
            ||| first.deep_view() == search_result(query, contents) && second.deep_view()
                == search_result(query, contents)
            ||| first.deep_view() == search_result_case_insensitive(query, contents)
                && second.deep_view() == search_result_case_insensitive(query, contents)
        }),
    ensures
        first@.len() == second@.len(),
        forall|i: int| 0 <= i < first@.len() ==> (#[trigger] first@[i])@ == second@[i]@,
{
    assert(first.deep_view() == second.deep_view());
    assert(first.deep_view().len() == first@.len() && second.deep_view().len() == second@.len());
    assert forall|i: int| 0 <= i < first@.len() implies (#[trigger] first@[i])@ == second@[i]@ by {
        assert(first.deep_view()[i] == second.deep_view()[i]);
    }
}

} // verus!
