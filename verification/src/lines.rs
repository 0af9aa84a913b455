//! Text as lines.
use vstd::prelude::*;
use vstd::slice::slice_subrange;

use crate::search::push_all;
use crate::text::chars_of;

verus! {

/// The first place at or behind `from` where a line feed stands in `s`; the end
/// of `s` where there is none.
pub open spec fn next_newline(s: Seq<char>, from: int) -> int
    decreases s.len() - from,
{
    if from >= s.len() || s[from] == '\n' {
        from
    } else {
        next_newline(s, from + 1)
    }
}

/// `line` without a carriage return at its end.
pub open spec fn without_return(line: Seq<char>) -> Seq<char> {
    if line.len() > 0 && line.last() == '\r' {
        line.drop_last()
    } else {
        line
    }
}

/// The lines of `s`. A line ends with a line feed or with a carriage return and
/// a line feed, neither of which belongs to it; the last line needs no end.
pub open spec fn lines(s: Seq<char>) -> Seq<Seq<char>>
    decreases s.len(),
{
    let end = next_newline(s, 0);
    if s.len() == 0 {
        Seq::empty()
    } else if 0 <= end < s.len() {
        seq![without_return(s.take(end))] + lines(s.skip(end + 1))
    } else {
        seq![s]
    }
}

/// The texts `parts`, with `separator` between any two that follow each other.
pub open spec fn joined(parts: Seq<Seq<char>>, separator: Seq<char>) -> Seq<char>
    decreases parts.len(),
{
    if parts.len() == 0 {
        Seq::empty()
    } else if parts.len() == 1 {
        parts[0]
    } else {
        joined(parts.drop_last(), separator) + separator + parts.last()
    }
}

/// The texts in a sequence of character vectors.
pub open spec fn texts(parts: Seq<Vec<char>>) -> Seq<Seq<char>> {
    parts.map_values(|part: Vec<char>| part@)
}

/// The texts in a sequence of strings.
pub open spec fn strings(parts: Seq<String>) -> Seq<Seq<char>> {
    parts.map_values(|part: String| part@)
}

pub proof fn lemma_next_newline(s: Seq<char>, from: int)
    requires
        0 <= from <= s.len(),
    ensures
        from <= next_newline(s, from) <= s.len(),
        next_newline(s, from) < s.len() ==> s[next_newline(s, from)] == '\n',
        forall|i: int| from <= i < next_newline(s, from) ==> s[i] != '\n',
    decreases s.len() - from,
{
    if from < s.len() && s[from] != '\n' {
        lemma_next_newline(s, from + 1);
    }
}

pub proof fn lemma_next_newline_in_rest(s: Seq<char>, start: int, from: int)
    requires
        0 <= start <= from <= s.len(),
    ensures
        next_newline(s, from) == start + next_newline(s.skip(start), from - start),
    decreases s.len() - from,
{
    if from < s.len() {
        assert(s.skip(start)[from - start] == s[from]);
        if s[from] != '\n' {
            lemma_next_newline_in_rest(s, start, from + 1);
        }
    }
}

/// A line holds no line feed.
pub proof fn lines_hold_no_newline(s: Seq<char>)
    ensures
        forall|k: int, i: int|
            0 <= k < lines(s).len() && 0 <= i < lines(s)[k].len() ==> #[trigger] lines(s)[k][i]
                != '\n',
    decreases s.len(),
{
    let end = next_newline(s, 0);
    lemma_next_newline(s, 0);
    if s.len() > 0 && end < s.len() {
        let rest = s.skip(end + 1);
        lines_hold_no_newline(rest);
        assert forall|k: int, i: int|
            0 <= k < lines(s).len() && 0 <= i < lines(s)[k].len() implies #[trigger] lines(s)[k][i]
            != '\n' by {
            if k == 0 {
                assert(lines(s)[0] == without_return(s.take(end)));
                assert(lines(s)[0][i] == s[i]);
            } else {
                assert(lines(s)[k] == lines(rest)[k - 1]);
                assert(lines(rest)[k - 1][i] != '\n');
            }
        }
    }
}

/// The lines of `chars`.
pub fn lines_of(chars: &[char]) -> (out: Vec<Vec<char>>)
    ensures
        texts(out@) == lines(chars@),
{
    let mut out: Vec<Vec<char>> = Vec::new();
    let mut start: usize = 0;
    assert(chars@.skip(0) =~= chars@);
    while start < chars.len()
        invariant
            start <= chars@.len(),
            lines(chars@) == texts(out@) + lines(chars@.skip(start as int)),
        decreases chars@.len() - start,
    {
        let ghost rest = chars@.skip(start as int);
        let ghost before = out@;
        let mut end: usize = start;
        proof {
            lemma_next_newline_in_rest(chars@, start as int, start as int);
        }
        while end < chars.len() && chars[end] != '\n'
            invariant
                start <= end <= chars@.len(),
                next_newline(chars@, start as int) == next_newline(chars@, end as int),
            decreases chars@.len() - end,
        {
            end += 1;
        }
        let mut line: Vec<char> = Vec::new();
        if end < chars.len() {
            let mut stop: usize = end;
            if start < end && chars[end - 1] == '\r' {
                stop = end - 1;
            }
            push_all(&mut line, slice_subrange(chars, start, stop));
            proof {
                let whole = rest.take(end - start);
                if start < end {
                    assert(whole.last() == chars@[end - 1]);
                }
                assert(line@ =~= without_return(whole));
                assert(rest.skip(end - start + 1) =~= chars@.skip(end + 1));
            }
            out.push(line);
            proof {
                assert(texts(out@) =~= texts(before).push(out@.last()@));
                assert(texts(out@) + lines(chars@.skip(end + 1)) =~= texts(before) + (
                seq![out@.last()@] + lines(chars@.skip(end + 1))));
            }
            start = end + 1;
        } else {
            push_all(&mut line, slice_subrange(chars, start, end));
            proof {
                assert(line@ =~= rest);
            }
            out.push(line);
            proof {
                assert(texts(out@) =~= texts(before).push(rest));
                assert(chars@.skip(end as int).len() == 0);
                assert(texts(out@) + lines(chars@.skip(end as int)) =~= texts(before) + seq![rest]);
            }
            start = end;
        }
    }
    assert(chars@.skip(start as int).len() == 0);
    assert(texts(out@) + Seq::<Seq<char>>::empty() =~= texts(out@));
    out
}

/// The texts `parts` with `separator` between them.
pub fn join_chars(parts: &[Vec<char>], separator: &str) -> (out: Vec<char>)
    ensures
        out@ == joined(texts(parts@), separator@),
{
    let separator = chars_of(separator);
    let mut out: Vec<char> = Vec::new();
    let mut i: usize = 0;
    assert(texts(parts@).take(0) =~= Seq::empty());
    while i < parts.len()
        invariant
            i <= parts@.len(),
            out@ == joined(texts(parts@).take(i as int), separator@),
        decreases parts@.len() - i,
    {
        if i > 0 {
            push_all(&mut out, &separator);
        }
        push_all(&mut out, &parts[i]);
        proof {
            let next = texts(parts@).take(i + 1);
            assert(next.drop_last() =~= texts(parts@).take(i as int));
            assert(next.last() == parts@[i as int]@);
            assert(out@ =~= joined(next, separator@));
        }
        i += 1;
    }
    assert(texts(parts@).take(parts@.len() as int) =~= texts(parts@));
    out
}

/// The strings `parts` with `separator` between them.
pub fn join_strings(parts: &Vec<String>, separator: &str) -> (out: String)
    ensures
        out@ == joined(strings(parts@), separator@),
{
    let mut out = String::new();
    let mut i: usize = 0;
    assert(strings(parts@).take(0) =~= Seq::empty());
    while i < parts.len()
        invariant
            i <= parts@.len(),
            out@ == joined(strings(parts@).take(i as int), separator@),
        decreases parts@.len() - i,
    {
        if i > 0 {
            out.append(separator);
        }
        out.append(parts[i].as_str());
        proof {
            let next = strings(parts@).take(i + 1);
            assert(next.drop_last() =~= strings(parts@).take(i as int));
            assert(next.last() == parts@[i as int]@);
            assert(out@ =~= joined(next, separator@));
        }
        i += 1;
    }
    assert(strings(parts@).take(parts@.len() as int) =~= strings(parts@));
    out
}

/// A line ends with a line feed, or with a carriage return and a line feed, which
/// do not belong to it; all else in it does, and the lines of what follows come
/// behind it. What follows the last line feed is a line unless it is empty.
pub proof fn lines_end_with_line_feeds(line: Seq<char>, rest: Seq<char>)
    requires
        !line.contains('\n'),
    ensures
        line.len() > 0 && line.last() == '\r' || lines(line + "\n"@ + rest) == seq![line] + lines(
            rest,
        ),
        lines(line + "\r\n"@ + rest) == seq![line] + lines(rest),
        lines(line) == (if line.len() > 0 {
            seq![line]
        } else {
            Seq::empty()
        }),
{
    reveal_strlit("\n");
    reveal_strlit("\r\n");
    let n = line.len() as int;
    let s = line + "\n"@ + rest;
    lemma_next_newline(s, 0);
    assert(s[n] == '\n');
    if next_newline(s, 0) < n {
        assert(line[next_newline(s, 0)] == '\n');
    }
    assert(s.take(n) =~= line);
    assert(s.skip(n + 1) =~= rest);
    let t = line + "\r\n"@ + rest;
    lemma_next_newline(t, 0);
    assert(t[n] == '\r');
    assert(t[n + 1] == '\n');
    if next_newline(t, 0) < n {
        assert(line[next_newline(t, 0)] == '\n');
    }
    assert(t.take(n + 1) =~= line.push('\r'));
    assert(t.take(n + 1).drop_last() =~= line);
    assert(t.skip(n + 2) =~= rest);
    lemma_next_newline(line, 0);
    if next_newline(line, 0) < n {
        assert(line[next_newline(line, 0)] == '\n');
    }
}

/// Texts are joined with one separator between any two that follow each other,
/// and none before the first or behind the last.
pub proof fn joining_puts_separators_between(
    first: Seq<Seq<char>>,
    second: Seq<Seq<char>>,
    part: Seq<char>,
    separator: Seq<char>,
)
    ensures
        joined(Seq::empty(), separator) == Seq::<char>::empty(),
        joined(seq![part], separator) == part,
        first.len() > 0 && second.len() > 0 ==> joined(first + second, separator) == joined(
            first,
            separator,
        ) + separator + joined(second, separator),
    decreases second.len(),
{
    if first.len() > 0 && second.len() > 0 {
        let whole = first + second;
        assert(whole.drop_last() =~= first + second.drop_last());
        assert(whole.last() == second.last());
        if second.len() == 1 {
            assert(whole.drop_last() =~= first);
        } else {
            joining_puts_separators_between(first, second.drop_last(), part, separator);
            assert(joined(whole, separator) =~= joined(first, separator) + separator + joined(
                second,
                separator,
            ));
        }
    }
}

/// The texts in a sequence are those of its members, each in its place.
pub proof fn texts_are_those_of_the_members(strs: Seq<String>, vecs: Seq<Vec<char>>, i: int)
    ensures
        strings(strs).len() == strs.len(),
        0 <= i < strs.len() ==> strings(strs)[i] == strs[i]@,
        texts(vecs).len() == vecs.len(),
        0 <= i < vecs.len() ==> texts(vecs)[i] == vecs[i]@,
{
}

} // verus!
