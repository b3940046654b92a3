use vstd::prelude::*;
use vstd::std_specs::iter::IteratorSpec;

verus! {

/// `query` occurs in `line` starting at position `i`.
pub open spec fn occurs_at(line: Seq<char>, query: Seq<char>, i: int) -> bool {
    &&& 0 <= i
    &&& i + query.len() <= line.len()
    &&& line.subrange(i, i + query.len()) == query
}

/// `query` is a contiguous piece of `line` (the empty query is a piece of every line).
pub open spec fn has_substring(line: Seq<char>, query: Seq<char>) -> bool {
    exists|i: int| #[trigger] occurs_at(line, query, i)
}

/// The characters of `s`, in order.
pub(crate) fn chars_of(s: &str) -> (r: Vec<char>)
    ensures
        r@ == s@,
{
    broadcast use vstd::string::axiom_spec_iter, vstd::string::next_postcondition;

    let mut it = s.chars();
    let mut r: Vec<char> = Vec::new();
    loop
        invariant
            r@ + it.remaining() == s@,
            it.decrease() is Some,
        decreases it.decrease()->0,
    {
        let ghost before = it.remaining();
        match it.next() {
            Some(c) => {
                assert(r@.push(c) + it.remaining() =~= r@ + before);
                r.push(c);
            },
            None => {
                assert(r@ + it.remaining() =~= r@);
                return r;
            },
        }
    }
}

/// Whether `query` occurs as a contiguous piece of `line`; characters are compared
/// exactly, with no folding of any kind.
pub fn contains_text(line: &str, query: &str) -> (r: bool)
    ensures
        r == has_substring(line@, query@),
{
    let h = chars_of(line);
    let q = chars_of(query);
    if q.len() > h.len() {
        assert forall|i: int| !occurs_at(line@, query@, i) by {}
        return false;
    }
    let last: usize = h.len() - q.len();
    let mut i: usize = 0;
    loop
        invariant
            h@ == line@,
            q@ == query@,
            last + q@.len() == h@.len(),
            h@.len() <= usize::MAX,
            i <= last,
            forall|k: int| 0 <= k < i ==> !#[trigger] occurs_at(h@, q@, k),
        decreases last - i,
    {
        let mut j: usize = 0;
        let mut same = true;
        while j < q.len()
            invariant
                h@ == line@,
                q@ == query@,
                last + q@.len() == h@.len(),
                h@.len() <= usize::MAX,
                i <= last,
                j <= q@.len(),
                same ==> forall|k: int| 0 <= k < j ==> h@[i + k] == q@[k],
                !same ==> !occurs_at(h@, q@, i as int),
            decreases q@.len() - j + if same { 1int } else { 0int },
        {
            if h[i + j] != q[j] {
                assert(h@.subrange(i as int, i + q@.len())[j as int] != q@[j as int]);
                same = false;
                j = q.len();
            } else {
                j += 1;
            }
        }
        if same {
            assert(h@.subrange(i as int, i + q@.len()) =~= q@);
            assert(occurs_at(h@, q@, i as int));
            return true;
        }
        if i == last {
            assert forall|k: int| !occurs_at(h@, q@, k) by {
                if 0 <= k <= i {
                }
            }
            return false;
        }
        i += 1;
    }
}

/// Position of the first line feed in `s`, or `s.len()` where there is none.
pub open spec fn newline_index(s: Seq<char>) -> nat
    decreases s.len(),
{
    if s.len() == 0 || s[0] == '\n' {
        0
    } else {
        1 + newline_index(s.drop_first())
    }
}

/// A line with the carriage return of a `\r\n` ending taken off.
pub open spec fn without_cr(line: Seq<char>) -> Seq<char> {
    if line.len() > 0 && line.last() == '\r' {
        line.drop_last()
    } else {
        line
    }
}

/// The lines of a text: the pieces between line feeds, each without the
/// carriage return of a `\r\n` ending. A last piece that no line feed ends is a
/// line; the empty piece after a final line feed is not.
pub open spec fn lines_of(s: Seq<char>) -> Seq<Seq<char>>
    decreases s.len(),
{
    if s.len() == 0 {
        seq![]
    } else {
        let k = newline_index(s);
        if k < s.len() {
            seq![without_cr(s.take(k as int))] + lines_of(s.skip(k + 1 as int))
        } else {
            seq![s]
        }
    }
}

/// What a sequence of string slices holds, as character sequences.
pub open spec fn texts(v: Seq<&str>) -> Seq<Seq<char>> {
    v.map_values(|l: &str| l@)
}

proof fn lemma_newline_index(s: Seq<char>, m: int)
    requires
        0 <= m <= s.len(),
        forall|j: int| 0 <= j < m ==> s[j] != '\n',
        m == s.len() || s[m] == '\n',
    ensures
        newline_index(s) == m,
    decreases m,
{
    if m > 0 {
        lemma_newline_index(s.drop_first(), m - 1);
    }
}

/// Splits `contents` into its lines, in order; each line is a slice of `contents`.
pub fn split_lines<'a>(contents: &'a str) -> (r: Vec<&'a str>)
    ensures
        texts(r@) == lines_of(contents@),
{
    let text = chars_of(contents);
    let n = text.len();
    let mut out: Vec<&'a str> = Vec::new();
    let mut start: usize = 0;
    let mut i: usize = 0;
    assert(contents@.skip(0) =~= contents@);
    assert(texts(out@) + lines_of(contents@) =~= lines_of(contents@));
    while i < n
        invariant
            text@ == contents@,
            n == text@.len(),
            start <= i <= n,
            forall|j: int| start <= j < i ==> text@[j] != '\n',
            lines_of(contents@) == texts(out@) + lines_of(contents@.skip(start as int)),
        decreases n - i,
    {
        if text[i] == '\n' {
            let end: usize = if i > start && text[i - 1] == '\r' {
                i - 1
            } else {
                i
            };
            let line = contents.substring_char(start, end);
            proof {
                let rest = contents@.skip(start as int);
                let m = i - start;
                lemma_newline_index(rest, m);
                assert(rest.take(m) =~= contents@.subrange(start as int, i as int));
                assert(without_cr(rest.take(m)) =~= line@);
                assert(rest.skip(m + 1) =~= contents@.skip(i + 1));
                assert(texts(out@.push(line)) =~= texts(out@).push(line@));
                assert(lines_of(rest) == seq![line@] + lines_of(contents@.skip(i + 1)));
                assert(texts(out@).push(line@) + lines_of(contents@.skip(i + 1))
                    =~= texts(out@) + lines_of(rest));
            }
            out.push(line);
            start = i + 1;
        }
        i += 1;
    }
    let ghost rest = contents@.skip(start as int);
    if start < n {
        let line = contents.substring_char(start, n);
        proof {
            lemma_newline_index(rest, rest.len() as int);
            assert(rest =~= line@);
            assert(texts(out@.push(line)) =~= texts(out@) + seq![line@]);
        }
        out.push(line);
    } else {
        assert(rest.len() == 0);
        assert(texts(out@) + lines_of(rest) =~= texts(out@));
    }
    out
}

} // verus!
