//! Editing a file by line numbers.
use vstd::prelude::*;

use crate::lines::{join_chars, joined, texts};
use crate::number::{decimal, push_decimal};
use crate::replace_lines_tool::{Edit, EditView};
use crate::rows::{
    ended, rows, rows_make_up_the_text, rows_of, rows_of_ended, rows_of_ended_text,
    rows_of_joined,
};
use crate::search::{ends_with, push_all};
use crate::text::{chars_of, string_of};

verus! {

/// The first row to replace, counted from 1: `start_line`, or the nearest row
/// that there is.
pub open spec fn first_row(start_line: u32, total: int) -> int {
    if start_line < 1 {
        1
    } else if start_line <= total {
        start_line as int
    } else {
        total
    }
}

/// The last row to replace, counted from 1: `end_line`, or the nearest row that
/// there is at or behind the first.
pub open spec fn last_row(start_line: u32, end_line: u32, total: int) -> int {
    let first = first_row(start_line, total);
    if end_line < first {
        first
    } else if end_line <= total {
        end_line as int
    } else {
        total
    }
}

/// `text` with `new_text`, as it is, in place of the rows from `start_line` to
/// `end_line`, each of which has its line feed with it, if there is one.
pub open spec fn with_rows_replaced(
    text: Seq<char>,
    start_line: u32,
    end_line: u32,
    new_text: Seq<char>,
) -> Seq<char> {
    let all = rows(text);
    let total = all.len() as int;
    let last = last_row(start_line, end_line, total);
    ended(all.take(first_row(start_line, total) - 1)) + new_text + (if last < total {
        joined(all.skip(last), "\n"@)
    } else {
        Seq::empty()
    })
}

/// The answer to an edit of the rows from `first` to `last`.
pub open spec fn rows_response(first: nat, last: nat, path: Seq<char>) -> Seq<char> {
    "Replaced lines "@ + decimal(first) + "-"@ + decimal(last) + " in "@ + path
}

/// The edit of `text` by line numbers.
pub open spec fn line_edit(
    text: Seq<char>,
    start_line: u32,
    end_line: u32,
    new_text: Seq<char>,
    path: Seq<char>,
) -> EditView {
    let total = rows(text).len() as int;
    EditView {
        new_text: Some(with_rows_replaced(text, start_line, end_line, new_text)),
        save: true,
        response: Ok(
            rows_response(
                first_row(start_line, total) as nat,
                last_row(start_line, end_line, total) as nat,
                path,
            ),
        ),
    }
}

/// The rows replaced are rows that there are, and those asked for where there
/// are such.
pub proof fn replaced_rows_exist(start_line: u32, end_line: u32, total: int)
    requires
        total >= 1,
    ensures
        1 <= first_row(start_line, total) <= last_row(start_line, end_line, total) <= total,
        1 <= start_line <= end_line <= total ==> first_row(start_line, total) == start_line
            && last_row(start_line, end_line, total) == end_line,
{
}

/// An edit by line numbers leaves the other rows alone: the rows before the
/// replaced ones are the first of the new text, and what stands behind the
/// replaced ones follows the text put in. Where that is empty or ends with a line
/// feed, the rows behind are rows of the new text too; where there are none, an
/// empty row ends it.
pub proof fn line_edit_keeps_the_other_rows(
    text: Seq<char>,
    start_line: u32,
    end_line: u32,
    new_text: Seq<char>,
)
    ensures
        ({
            let all = rows(text);
            let total = all.len() as int;
            let before = all.take(first_row(start_line, total) - 1);
            let last = last_row(start_line, end_line, total);
            let behind = if last < total {
                joined(all.skip(last), "\n"@)
            } else {
                Seq::empty()
            };
            let new = rows(with_rows_replaced(text, start_line, end_line, new_text));
            &&& new == before + rows(new_text + behind)
            &&& new_text.len() == 0 || ends_with(new_text, "\n"@) ==> new == before + rows(
                new_text,
            ).drop_last() + (if last < total {
                all.skip(last)
            } else {
                seq![Seq::empty()]
            })
        }),
{
    let all = rows(text);
    let total = all.len() as int;
    let before = all.take(first_row(start_line, total) - 1);
    let last = last_row(start_line, end_line, total);
    rows_make_up_the_text(text);
    let behind = if last < total {
        joined(all.skip(last), "\n"@)
    } else {
        Seq::empty()
    };
    rows_of_ended(before, new_text + behind);
    assert(ended(before) + new_text + behind =~= ended(before) + (new_text + behind));
    if new_text.len() == 0 || ends_with(new_text, "\n"@) {
        if last < total {
            rows_of_joined(all.skip(last));
        } else {
            crate::rows::lemma_no_newline(behind);
        }
        rows_make_up_the_text(new_text);
        let inner = rows(new_text).drop_last();
        if new_text.len() == 0 {
            crate::rows::lemma_no_newline(new_text);
            assert(inner =~= Seq::empty());
            assert(ended(inner) =~= new_text);
        } else {
            rows_of_ended_text(new_text);
        }
        rows_of_ended(inner, behind);
        assert(before + (inner + rows(behind)) =~= before + inner + rows(behind));
    }
}

/// Lines that are replaced by nothing are gone, with their line feeds.
pub proof fn an_empty_text_deletes_lines(text: Seq<char>, start_line: u32, end_line: u32)
    ensures
        ({
            let all = rows(text);
            let total = all.len() as int;
            let last = last_row(start_line, end_line, total);
            last < total ==> rows(with_rows_replaced(text, start_line, end_line, Seq::empty()))
                == all.take(first_row(start_line, total) - 1) + all.skip(last)
        }),
{
    line_edit_keeps_the_other_rows(text, start_line, end_line, Seq::empty());
    crate::rows::lemma_no_newline(Seq::empty());
    let all = rows(text);
    let total = all.len() as int;
    let before = all.take(first_row(start_line, total) - 1);
    assert(rows(Seq::<char>::empty()).drop_last() =~= Seq::empty());
    assert(before + Seq::<Seq<char>>::empty() =~= before);
}

/// Puts the rows `rows[..end]`, each with a line feed, behind what is in `out`.
fn push_ended(out: &mut Vec<char>, rows: &Vec<Vec<char>>, end: usize)
    requires
        end <= rows@.len(),
    ensures
        final(out)@ == old(out)@ + ended(texts(rows@).take(end as int)),
{
    let ghost before = out@;
    let ghost all = texts(rows@).take(end as int);
    let newline = chars_of("\n");
    let mut i: usize = 0;
    assert(all.skip(0) =~= all);
    while i < end
        invariant
            i <= end <= rows@.len(),
            newline@ == "\n"@,
            all == texts(rows@).take(end as int),
            before + ended(all) == out@ + ended(all.skip(i as int)),
        decreases end - i,
    {
        let ghost so_far = out@;
        push_all(out, &rows[i]);
        push_all(out, &newline);
        proof {
            let rest = all.skip(i as int);
            assert(rest.first() == rows@[i as int]@);
            assert(rest.drop_first() =~= all.skip(i + 1));
            assert(out@ + ended(all.skip(i + 1)) =~= so_far + ended(rest));
        }
        i += 1;
    }
    assert(all.skip(end as int) =~= Seq::empty());
    assert(out@ + Seq::<char>::empty() =~= out@);
}

/// The row, counted from 0, that an edit from `start_line` on points the reader
/// to.
pub fn location_line(start_line: u32) -> (row: u32)
    ensures
        row == (if start_line > 0 {
            start_line - 1
        } else {
            0
        }),
{
    if start_line > 0 {
        start_line - 1
    } else {
        0
    }
}

/// Edits `text` by line numbers.
pub fn run_line_mode(
    text: &str,
    start_line: u32,
    end_line: u32,
    new_text: &str,
    display_path: &str,
) -> (edit: Edit)
    requires
        rows(text@).len() <= u32::MAX,
    ensures
        edit@ == line_edit(text@, start_line, end_line, new_text@, display_path@),
{
    let all = rows_of(&chars_of(text));
    proof {
        rows_make_up_the_text(text@);
    }
    let total: u32 = all.len() as u32;
    let first: u32 = if start_line < 1 {
        1
    } else if start_line <= total {
        start_line
    } else {
        total
    };
    let last: u32 = if end_line < first {
        first
    } else if end_line <= total {
        end_line
    } else {
        total
    };
    let mut content: Vec<char> = Vec::new();
    push_ended(&mut content, &all, (first - 1) as usize);
    assert(Seq::<char>::empty() + ended(texts(all@).take(first - 1)) =~= ended(
        texts(all@).take(first - 1),
    ));
    push_all(&mut content, &chars_of(new_text));
    let ghost so_far = content@;
    if last < total {
        let rest = vstd::slice::slice_subrange(all.as_slice(), last as usize, all.len());
        assert(texts(rest@) =~= rows(text@).skip(last as int));
        push_all(&mut content, &join_chars(rest, "\n"));
    } else {
        assert(so_far + Seq::<char>::empty() =~= so_far);
    }
    let mut response = "Replaced lines ".to_owned();
    push_decimal(&mut response, first as u128);
    response.append("-");
    push_decimal(&mut response, last as u128);
    response.append(" in ");
    response.append(display_path);
    Edit { new_text: Some(string_of(&content)), save: true, response: Ok(response) }
}

/// An edit by line numbers puts the new text, as it is, in place of the rows from
/// the first to the last that it names, counted from 1 and both included, each
/// with its line feed. The rows before them and behind them stay as they are. The
/// answer tells the two numbers, and the file is saved.
pub proof fn line_edit_replaces_the_rows_named(
    before: Seq<Seq<char>>,
    named: Seq<Seq<char>>,
    behind: Seq<Seq<char>>,
    start_line: u32,
    end_line: u32,
    new_text: Seq<char>,
    path: Seq<char>,
)
    requires
        named.len() > 0,
        forall|k: int|
            0 <= k < (before + named + behind).len() ==> !(#[trigger] (before + named
                + behind)[k]).contains('\n'),
        start_line == before.len() + 1,
        end_line == before.len() + named.len(),
    ensures
        ({
            let text = joined(before + named + behind, "\n"@);
            let edit = line_edit(text, start_line, end_line, new_text, path);
            &&& edit.new_text == Some(ended(before) + new_text + joined(behind, "\n"@))
            &&& edit.save
            &&& edit.response == Ok::<Seq<char>, Seq<char>>(
                "Replaced lines "@ + decimal(start_line as nat) + "-"@ + decimal(end_line as nat)
                    + " in "@ + path,
            )
        }),
{
    let all = before + named + behind;
    let text = joined(all, "\n"@);
    assert forall|k: int| 0 <= k < all.len() implies crate::rows::is_one_row(#[trigger] all[k]) by {
        assert(!all[k].contains('\n'));
    }
    rows_of_joined(all);
    let last = before.len() + named.len();
    assert(all.take(before.len() as int) =~= before);
    assert(all.skip(last as int) =~= behind);
    assert(joined(Seq::empty(), "\n"@) =~= Seq::<char>::empty());
    if behind.len() == 0 {
        assert(behind =~= Seq::empty());
    }
}

/// Line numbers that name no row stand for the nearest that do: 0 for the first
/// row, one beyond the last row for the last, and an end before the start for the
/// start.
pub proof fn line_numbers_beyond_the_text_stand_for_the_nearest(
    text: Seq<char>,
    start_line: u32,
    end_line: u32,
    new_text: Seq<char>,
    path: Seq<char>,
)
    requires
        rows(text).len() <= u32::MAX,
    ensures
        ({
            let total = rows(text).len() as u32;
            let edit = line_edit(text, start_line, end_line, new_text, path);
            &&& line_edit(text, 0, end_line, new_text, path) == line_edit(
                text,
                1,
                end_line,
                new_text,
                path,
            )
            &&& start_line > total ==> edit == line_edit(text, total, end_line, new_text, path)
            &&& end_line > total ==> edit == line_edit(text, start_line, total, new_text, path)
            &&& end_line < start_line ==> edit == line_edit(
                text,
                start_line,
                start_line,
                new_text,
                path,
            )
        }),
{
    rows_make_up_the_text(text);
}

} // verus!
