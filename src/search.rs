use vstd::prelude::*;
use crate::text::{
    chars_of, contains_text, has_substring, lines_of, occurs_at, split_lines, texts,
};

verus! {

broadcast use vstd::seq_lib::group_filter_ensures, vstd::seq::Seq::lemma_filter_push;

/// The lower-case form of a text, as `str::to_lowercase` gives it.
pub uninterp spec fn lower_of(s: Seq<char>) -> Seq<char>;

/// Relies on `str::to_lowercase`: the lower-case form depends on the characters
/// alone, and the empty string stays empty.
#[verifier::external_body]
fn lowercase(s: &str) -> (r: String)
    ensures
        r@ == lower_of(s@),
        s@.len() == 0 ==> r@.len() == 0,
{
    s.to_lowercase()
}

/// Whether `line` is a match for `query`: it holds `query` exactly, or, where
/// case does not count, its lower-case form holds the lower-case form of `query`.
pub open spec fn matches_line(line: Seq<char>, query: Seq<char>, case_sensitive: bool) -> bool {
    if case_sensitive {
        has_substring(line, query)
    } else {
        has_substring(lower_of(line), lower_of(query))
    }
}

/// The test that picks the matching lines.
pub open spec fn line_test(query: Seq<char>, case_sensitive: bool) -> spec_fn(Seq<char>) -> bool {
    |line: Seq<char>| matches_line(line, query, case_sensitive)
}

/// The lines of `contents` that match `query`, in their order in `contents`,
/// a line that recurs being kept each time.
pub open spec fn matching_lines(query: Seq<char>, contents: Seq<char>, case_sensitive: bool) -> Seq<
    Seq<char>,
> {
    lines_of(contents).filter(line_test(query, case_sensitive))
}

proof fn lemma_filter_keeps_all(s: Seq<Seq<char>>, test: spec_fn(Seq<char>) -> bool)
    requires
        forall|x: Seq<char>| #[trigger] test(x),
    ensures
        s.filter(test) == s,
    decreases s.len(),
{
    if s.len() > 0 {
        lemma_filter_keeps_all(s.drop_last(), test);
        assert(s.drop_last().push(s.last()) =~= s);
    }
}

/// Every text holds the empty query.
proof fn lemma_empty_query_everywhere(query: Seq<char>)
    requires
        query.len() == 0,
    ensures
        forall|line: Seq<char>| #[trigger] has_substring(line, query),
{
    assert forall|line: Seq<char>| #[trigger] has_substring(line, query) by {
        assert(line.subrange(0, 0) =~= query);
        assert(occurs_at(line, query, 0));
    }
}

/// Keeps the lines that match `query`, in order; `folded_query` is the lower-case
/// form of `query`, read only where case does not count.
fn select_lines<'a>(
    lines: Vec<&'a str>,
    query: &str,
    folded_query: &String,
    case_sensitive: bool,
) -> (r: Vec<&'a str>)
    requires
        !case_sensitive ==> folded_query@ == lower_of(query@),
    ensures
        texts(r@) == texts(lines@).filter(line_test(query@, case_sensitive)),
{
    let ghost test = line_test(query@, case_sensitive);
    let mut out: Vec<&'a str> = Vec::new();
    let mut j: usize = 0;
    assert(texts(lines@).take(0) =~= seq![]);
    assert(texts(out@) =~= seq![]);
    while j < lines.len()
        invariant
            j <= lines@.len(),
            test == line_test(query@, case_sensitive),
            !case_sensitive ==> folded_query@ == lower_of(query@),
            texts(out@) == texts(lines@).take(j as int).filter(test),
        decreases lines@.len() - j,
    {
        let line = lines[j];
        let keep = if case_sensitive {
            contains_text(line, query)
        } else {
            let folded = lowercase(line);
            contains_text(folded.as_str(), folded_query.as_str())
        };
        proof {
            assert(texts(lines@).take(j + 1) =~= texts(lines@).take(j as int).push(line@));
            assert(line@ == texts(lines@)[j as int]);
            assert(keep == matches_line(line@, query@, case_sensitive));
        }
        if keep {
            assert(texts(out@.push(line)) =~= texts(out@).push(line@));
            out.push(line);
        }
        j += 1;
    }
    assert(texts(lines@).take(lines@.len() as int) =~= texts(lines@));
    out
}

/// The lines of `contents` that hold `query` exactly, in order.
pub fn search<'a>(query: &str, contents: &'a str) -> (r: Vec<&'a str>)
    ensures
        texts(r@) == matching_lines(query@, contents@, true),
        forall|i: int| 0 <= i < r@.len() ==> has_substring(#[trigger] r@[i]@, query@),
        query@.len() == 0 ==> texts(r@) == lines_of(contents@),
{
    let lines = split_lines(contents);
    let r = select_lines(lines, query, &String::new(), true);
    proof {
        let found = matching_lines(query@, contents@, true);
        assert forall|i: int| 0 <= i < r@.len() implies has_substring(#[trigger] r@[i]@, query@) by {
            assert(texts(r@)[i] == r@[i]@);
            assert(line_test(query@, true)(found[i]));
        }
        if query@.len() == 0 {
            lemma_empty_query_everywhere(query@);
            lemma_filter_keeps_all(lines_of(contents@), line_test(query@, true));
        }
    }
    r
}

/// The lines of `contents` whose lower-case form holds the lower-case form of
/// `query`, in order. Each line is folded on its own; `contents` as a whole is not.
pub fn search_case_insensitive<'a>(query: &str, contents: &'a str) -> (r: Vec<&'a str>)
    ensures
        texts(r@) == matching_lines(query@, contents@, false),
        forall|i: int|
            0 <= i < r@.len() ==> has_substring(lower_of(#[trigger] r@[i]@), lower_of(query@)),
        query@.len() == 0 ==> texts(r@) == lines_of(contents@),
{
    let folded_query = lowercase(query);
    let lines = split_lines(contents);
    let r = select_lines(lines, query, &folded_query, false);
    proof {
        let found = matching_lines(query@, contents@, false);
        assert forall|i: int| 0 <= i < r@.len() implies has_substring(
            lower_of(#[trigger] r@[i]@),
            lower_of(query@),
        ) by {
            assert(texts(r@)[i] == r@[i]@);
            assert(line_test(query@, false)(found[i]));
        }
        if query@.len() == 0 {
            lemma_empty_query_everywhere(lower_of(query@));
            assert forall|line: Seq<char>| #[trigger] line_test(query@, false)(line) by {
                assert(has_substring(lower_of(line), lower_of(query@)));
            }
            lemma_filter_keeps_all(lines_of(contents@), line_test(query@, false));
        }
    }
    r
}

/// The lines of `contents` that match `query` in the given mode, in order.
pub fn search_lines<'a>(query: &str, contents: &'a str, case_sensitive: bool) -> (r: Vec<&'a str>)
    ensures
        texts(r@) == matching_lines(query@, contents@, case_sensitive),
        forall|i: int|
            0 <= i < r@.len() ==> matches_line(#[trigger] r@[i]@, query@, case_sensitive),
        query@.len() == 0 ==> texts(r@) == lines_of(contents@),
{
    if case_sensitive {
        search(query, contents)
    } else {
        search_case_insensitive(query, contents)
    }
}

/// Lowering `line` keeps each exact occurrence of `query` in it: the lower-case
/// form of the line is that of the text before the occurrence, then that of
/// `query`, then that of the text after it.
pub open spec fn folding_keeps_query(line: Seq<char>, query: Seq<char>) -> bool {
    forall|i: int|
        #[trigger] occurs_at(line, query, i) ==> lower_of(line) == lower_of(line.take(i)) + lower_of(
            query,
        ) + lower_of(line.skip(i + query.len()))
}

/// A line that holds `query` exactly also matches it with case ignored, so the
/// lines found with case ignored include every line found exactly. This holds
/// wherever lowering each line keeps the occurrences of `query` in it.
pub proof fn lemma_case_insensitive_covers(query: Seq<char>, contents: Seq<char>)
    requires
        forall|k: int|
            0 <= k < lines_of(contents).len() ==> folding_keeps_query(
                #[trigger] lines_of(contents)[k],
                query,
            ),
    ensures
        forall|k: int|
            0 <= k < matching_lines(query, contents, true).len() ==> matching_lines(
                query,
                contents,
                false,
            ).contains(#[trigger] matching_lines(query, contents, true)[k]),
{
    let lines = lines_of(contents);
    let exact = matching_lines(query, contents, true);
    assert forall|k: int| 0 <= k < exact.len() implies matching_lines(query, contents, false).contains(
        #[trigger] exact[k],
    ) by {
        let line = exact[k];
        assert(line_test(query, true)(line));
        assert(exact.contains(line));
        lines.lemma_filter_contains_rev(line_test(query, true), line);
        let n = choose|n: int| 0 <= n < lines.len() && lines[n] == line;
        assert(folding_keeps_query(lines[n], query));
        let i = choose|i: int| occurs_at(line, query, i);
        let before = lower_of(line.take(i));
        let folded = lower_of(line);
        assert(folded == before + lower_of(query) + lower_of(line.skip(i + query.len())));
        assert(folded.subrange(before.len() as int, before.len() + lower_of(query).len() as int)
            =~= lower_of(query));
        assert(occurs_at(folded, lower_of(query), before.len() as int));
        assert(line_test(query, false)(lines[n]));
    }
}

} // verus!
