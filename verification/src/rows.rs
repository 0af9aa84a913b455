//! Text as the rows of an editor: every line feed ends a row, and a row, be it
//! empty, follows it.
use vstd::prelude::*;
use vstd::slice::slice_subrange;

use crate::lines::{joined, lemma_next_newline, lemma_next_newline_in_rest, next_newline, texts};
use crate::search::{ends_with, push_all};

verus! {

/// The rows of `s`: what stands between its line feeds.
pub open spec fn rows(s: Seq<char>) -> Seq<Seq<char>>
    decreases s.len(),
{
    let end = next_newline(s, 0);
    if 0 <= end < s.len() {
        seq![s.take(end)] + rows(s.skip(end + 1))
    } else {
        seq![s]
    }
}

/// The rows `rows`, each with a line feed behind it.
pub open spec fn ended(rows: Seq<Seq<char>>) -> Seq<char>
    decreases rows.len(),
{
    if rows.len() == 0 {
        Seq::empty()
    } else {
        rows.first() + "\n"@ + ended(rows.drop_first())
    }
}

/// Whether no line feed stands in `s`.
pub open spec fn is_one_row(s: Seq<char>) -> bool {
    !s.contains('\n')
}

/// The text `parts[0]`, `separator`, `parts[1]`, ... begins with its first part.
pub proof fn lemma_joined_from_the_front(parts: Seq<Seq<char>>, separator: Seq<char>)
    requires
        parts.len() > 1,
    ensures
        joined(parts, separator) == parts.first() + separator + joined(
            parts.drop_first(),
            separator,
        ),
    decreases parts.len(),
{
    if parts.len() == 2 {
        assert(parts.drop_last() =~= seq![parts[0]]);
        assert(parts.drop_first() =~= seq![parts[1]]);
        assert(joined(parts.drop_last(), separator) == parts[0]);
        assert(joined(parts.drop_first(), separator) == parts[1]);
    } else {
        lemma_joined_from_the_front(parts.drop_last(), separator);
        let middle = parts.drop_last().drop_first();
        assert(parts.drop_first().drop_last() =~= middle);
        assert(joined(parts, separator) =~= parts.first() + separator + joined(
            parts.drop_first(),
            separator,
        ));
    }
}

/// Where a row and a line feed begin a text, its first line feed is there.
pub proof fn lemma_first_newline(row: Seq<char>, rest: Seq<char>)
    requires
        is_one_row(row),
    ensures
        ({
            let s = row + "\n"@ + rest;
            &&& next_newline(s, 0) == row.len()
            &&& s.len() == row.len() + 1 + rest.len()
            &&& s.take(row.len() as int) == row
            &&& s.skip(row.len() as int + 1) == rest
        }),
{
    reveal_strlit("\n");
    let s = row + "\n"@ + rest;
    lemma_next_newline(s, 0);
    let n = next_newline(s, 0);
    assert(s[row.len() as int] == '\n');
    if n < row.len() {
        assert(row[n] == '\n');
    }
    assert(s.take(row.len() as int) =~= row);
    assert(s.skip(row.len() as int + 1) =~= rest);
}

/// A text without a line feed is a single row.
pub proof fn lemma_no_newline(row: Seq<char>)
    requires
        is_one_row(row),
    ensures
        next_newline(row, 0) == row.len(),
        rows(row) == seq![row],
{
    lemma_next_newline(row, 0);
    let n = next_newline(row, 0);
    if n < row.len() {
        assert(row[n] == '\n');
    }
}

/// The rows of a text have no line feeds in them, and with line feeds between
/// them they are the text.
pub proof fn rows_make_up_the_text(s: Seq<char>)
    ensures
        rows(s).len() > 0,
        forall|k: int| 0 <= k < rows(s).len() ==> is_one_row(#[trigger] rows(s)[k]),
        joined(rows(s), "\n"@) == s,
    decreases s.len(),
{
    let end = next_newline(s, 0);
    lemma_next_newline(s, 0);
    if end < s.len() {
        let rest = s.skip(end + 1);
        rows_make_up_the_text(rest);
        assert(rows(s).drop_first() =~= rows(rest));
        assert forall|k: int| 0 <= k < rows(s).len() implies is_one_row(#[trigger] rows(s)[k]) by {
            if k > 0 {
                assert(rows(s)[k] == rows(rest)[k - 1]);
            }
        }
        lemma_joined_from_the_front(rows(s), "\n"@);
        reveal_strlit("\n");
        assert(s =~= s.take(end) + "\n"@ + rest);
    }
}

/// Rows that stand before a text with their line feeds are rows of the whole.
pub proof fn rows_of_ended(before: Seq<Seq<char>>, s: Seq<char>)
    requires
        forall|k: int| 0 <= k < before.len() ==> is_one_row(#[trigger] before[k]),
    ensures
        rows(ended(before) + s) == before + rows(s),
    decreases before.len(),
{
    if before.len() == 0 {
        assert(ended(before) + s =~= s);
        assert(before + rows(s) =~= rows(s));
    } else {
        let rest = ended(before.drop_first()) + s;
        assert(ended(before) + s =~= before.first() + "\n"@ + rest);
        lemma_first_newline(before.first(), rest);
        rows_of_ended(before.drop_first(), s);
        assert(before + rows(s) =~= seq![before.first()] + (before.drop_first() + rows(s)));
    }
}

/// Rows with line feeds between them are the rows of the text that they make.
pub proof fn rows_of_joined(parts: Seq<Seq<char>>)
    requires
        parts.len() > 0,
        forall|k: int| 0 <= k < parts.len() ==> is_one_row(#[trigger] parts[k]),
    ensures
        rows(joined(parts, "\n"@)) == parts,
    decreases parts.len(),
{
    if parts.len() == 1 {
        lemma_no_newline(parts[0]);
        assert(parts =~= seq![parts[0]]);
    } else {
        lemma_joined_from_the_front(parts, "\n"@);
        let rest = joined(parts.drop_first(), "\n"@);
        lemma_first_newline(parts.first(), rest);
        rows_of_joined(parts.drop_first());
        assert(parts =~= seq![parts.first()] + parts.drop_first());
    }
}

/// A text that ends with a line feed has an empty last row, and is made of the
/// rows before it with their line feeds.
pub proof fn rows_of_ended_text(s: Seq<char>)
    requires
        ends_with(s, "\n"@),
    ensures
        rows(s).last() == Seq::<char>::empty(),
        s == ended(rows(s).drop_last()),
    decreases s.len(),
{
    reveal_strlit("\n");
    assert(s.subrange(s.len() - 1, s.len() as int)[0] == s.last());
    let end = next_newline(s, 0);
    lemma_next_newline(s, 0);
    if end == s.len() {
        assert(s[s.len() - 1] != '\n');
    }
    let rest = s.skip(end + 1);
    assert(s =~= s.take(end) + "\n"@ + rest);
    rows_make_up_the_text(rest);
    if rest.len() > 0 {
        assert(rest.subrange(rest.len() - 1, rest.len() as int) =~= "\n"@);
        rows_of_ended_text(rest);
        assert(rows(s).drop_last().drop_first() =~= rows(rest).drop_last());
        assert(rows(s).drop_last().first() == s.take(end));
    } else {
        lemma_no_newline(rest);
        assert(rows(s).drop_last() =~= seq![s.take(end)]);
        assert(seq![s.take(end)].drop_first() =~= Seq::empty());
        assert(ended(Seq::empty()) =~= Seq::empty());
        assert(ended(seq![s.take(end)]) =~= s.take(end) + "\n"@);
        assert(rest =~= Seq::empty());
    }
}

/// The rows of `chars`.
pub fn rows_of(chars: &[char]) -> (out: Vec<Vec<char>>)
    ensures
        texts(out@) == rows(chars@),
{
    let mut out: Vec<Vec<char>> = Vec::new();
    let mut start: usize = 0;
    assert(chars@.skip(0) =~= chars@);
    loop
        invariant
            start <= chars@.len(),
            rows(chars@) == texts(out@) + rows(chars@.skip(start as int)),
        decreases chars@.len() - start,
    {
        let ghost rest = chars@.skip(start as int);
        let ghost before = out@;
        let mut end: usize = start;
        proof {
            lemma_next_newline_in_rest(chars@, start as int, start as int);
        }
        while end < chars.len() && chars[end] != '\n'
            invariant
                start <= end <= chars@.len(),
                next_newline(chars@, start as int) == next_newline(chars@, end as int),
            decreases chars@.len() - end,
        {
            end += 1;
        }
        let mut row: Vec<char> = Vec::new();
        push_all(&mut row, slice_subrange(chars, start, end));
        assert(row@ =~= rest.take(end - start));
        out.push(row);
        assert(texts(out@) =~= texts(before).push(rest.take(end - start)));
        if end == chars.len() {
            assert(rest.take(end - start) =~= rest);
            assert(texts(out@) =~= texts(before) + seq![rest]);
            return out;
        }
        proof {
            assert(rest.skip(end - start + 1) =~= chars@.skip(end + 1));
            assert(texts(out@) + rows(chars@.skip(end + 1)) =~= texts(before) + (seq![
                rest.take(end - start),
            ] + rows(chars@.skip(end + 1))));
        }
        start = end + 1;
    }
}

/// Each row that is ended has one line feed behind it, and the rows follow each
/// other.
pub proof fn ended_rows_have_a_line_feed_each(
    row: Seq<char>,
    first: Seq<Seq<char>>,
    second: Seq<Seq<char>>,
)
    ensures
        ended(Seq::empty()) == Seq::<char>::empty(),
        ended(seq![row]) == row + "\n"@,
        ended(first + second) == ended(first) + ended(second),
    decreases first.len(),
{
    let none = Seq::<Seq<char>>::empty();
    assert(seq![row].drop_first() =~= none);
    assert(ended(none) =~= Seq::empty());
    assert(ended(seq![row]) =~= row + "\n"@);
    if first.len() == 0 {
        assert(first + second =~= second);
        assert(ended(first) + ended(second) =~= ended(second));
    } else {
        assert((first + second).drop_first() =~= first.drop_first() + second);
        ended_rows_have_a_line_feed_each(row, first.drop_first(), second);
        assert(ended(first + second) =~= ended(first) + ended(second));
    }
}

} // verus!
