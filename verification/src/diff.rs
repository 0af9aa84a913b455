//! The change between two texts, shown line by line.
use vstd::prelude::*;

use crate::lines::{lines, lines_of, texts};
use crate::text::{chars_of, push_chars, same_chars};

verus! {

/// How many lines `a` and `b` have in common at the beginning.
pub open spec fn common_prefix(a: Seq<Seq<char>>, b: Seq<Seq<char>>) -> nat
    decreases a.len(),
{
    if a.len() > 0 && b.len() > 0 && a.first() == b.first() {
        1 + common_prefix(a.drop_first(), b.drop_first())
    } else {
        0
    }
}

/// How many lines `a` and `b` have in common at the end.
pub open spec fn common_suffix(a: Seq<Seq<char>>, b: Seq<Seq<char>>) -> nat
    decreases a.len(),
{
    if a.len() > 0 && b.len() > 0 && a.last() == b.last() {
        1 + common_suffix(a.drop_last(), b.drop_last())
    } else {
        0
    }
}

/// The lines that a change leaves alone at the beginning.
pub open spec fn kept_before(old: Seq<Seq<char>>, new: Seq<Seq<char>>) -> Seq<Seq<char>> {
    old.take(common_prefix(old, new) as int)
}

/// The number of lines, behind [`kept_before`], that a change leaves alone at the
/// end.
pub open spec fn kept_after_len(old: Seq<Seq<char>>, new: Seq<Seq<char>>) -> nat {
    let n = common_prefix(old, new) as int;
    common_suffix(old.skip(n), new.skip(n))
}

/// The lines that a change leaves alone at the end.
pub open spec fn kept_after(old: Seq<Seq<char>>, new: Seq<Seq<char>>) -> Seq<Seq<char>> {
    new.skip(new.len() - kept_after_len(old, new))
}

/// The lines that a change takes away.
pub open spec fn removed(old: Seq<Seq<char>>, new: Seq<Seq<char>>) -> Seq<Seq<char>> {
    old.subrange(common_prefix(old, new) as int, old.len() - kept_after_len(old, new))
}

/// The lines that a change brings in.
pub open spec fn added(old: Seq<Seq<char>>, new: Seq<Seq<char>>) -> Seq<Seq<char>> {
    new.subrange(common_prefix(old, new) as int, new.len() - kept_after_len(old, new))
}

/// `line` with `mark` before it and a line feed behind it.
pub open spec fn marked_line(mark: Seq<char>, line: Seq<char>) -> Seq<char> {
    mark + line + "\n"@
}

/// The lines `lines`, each marked with `mark`.
pub open spec fn marked(mark: Seq<char>, lines: Seq<Seq<char>>) -> Seq<char>
    decreases lines.len(),
{
    if lines.len() == 0 {
        Seq::empty()
    } else {
        marked(mark, lines.drop_last()) + marked_line(mark, lines.last())
    }
}

/// The change from `old` to `new`: the last line before it, the lines that it
/// takes away, those that it brings in, and the first line behind it.
pub open spec fn diff_of_lines(old: Seq<Seq<char>>, new: Seq<Seq<char>>) -> Seq<char> {
    let before = kept_before(old, new);
    let after = kept_after(old, new);
    "```diff\n"@ + (if before.len() > 0 {
        marked_line("  "@, before.last())
    } else {
        Seq::empty()
    }) + marked("- "@, removed(old, new)) + marked("+ "@, added(old, new)) + (if after.len() > 0 {
        marked_line("  "@, after.first())
    } else {
        Seq::empty()
    }) + "```"@
}

/// The change from the text `old` to the text `new`.
pub open spec fn diff(old: Seq<char>, new: Seq<char>) -> Seq<char> {
    diff_of_lines(lines(old), lines(new))
}

proof fn lemma_common_prefix(a: Seq<Seq<char>>, b: Seq<Seq<char>>)
    ensures
        common_prefix(a, b) <= a.len(),
        common_prefix(a, b) <= b.len(),
        a.take(common_prefix(a, b) as int) == b.take(common_prefix(a, b) as int),
        common_prefix(a, b) < a.len() && common_prefix(a, b) < b.len() ==> a[common_prefix(
            a,
            b,
        ) as int] != b[common_prefix(a, b) as int],
    decreases a.len(),
{
    let n = common_prefix(a, b) as int;
    if a.len() > 0 && b.len() > 0 && a.first() == b.first() {
        let a1 = a.drop_first();
        let b1 = b.drop_first();
        lemma_common_prefix(a1, b1);
        assert forall|i: int| 0 <= i < n implies a[i] == b[i] by {
            if i > 0 {
                assert(a1.take(n - 1)[i - 1] == b1.take(n - 1)[i - 1]);
            }
        }
        assert(a.take(n) =~= b.take(n));
        if n < a.len() && n < b.len() {
            assert(a1[n - 1] == a[n]);
            assert(b1[n - 1] == b[n]);
        }
    } else {
        assert(a.take(n) =~= b.take(n));
    }
}

proof fn lemma_common_suffix(a: Seq<Seq<char>>, b: Seq<Seq<char>>)
    ensures
        common_suffix(a, b) <= a.len(),
        common_suffix(a, b) <= b.len(),
        a.skip(a.len() - common_suffix(a, b)) == b.skip(b.len() - common_suffix(a, b)),
    decreases a.len(),
{
    let n = common_suffix(a, b);
    if a.len() > 0 && b.len() > 0 && a.last() == b.last() {
        let a1 = a.drop_last();
        let b1 = b.drop_last();
        lemma_common_suffix(a1, b1);
        let tail_a = a.skip(a.len() - n);
        let tail_b = b.skip(b.len() - n);
        assert forall|i: int| 0 <= i < n implies tail_a[i] == tail_b[i] by {
            if i < n - 1 {
                assert(a1.skip(a1.len() - (n - 1))[i] == b1.skip(b1.len() - (n - 1))[i]);
            }
        }
        assert(tail_a =~= tail_b);
    } else {
        assert(a.skip(a.len() - n) =~= b.skip(b.len() - n));
    }
}

/// A diff is exact: the old lines are those kept before the change, those
/// removed and those kept behind it; the new lines are the same with the added
/// lines in place of the removed ones.
pub proof fn diff_is_exact(old: Seq<Seq<char>>, new: Seq<Seq<char>>)
    ensures
        old == kept_before(old, new) + removed(old, new) + kept_after(old, new),
        new == kept_before(old, new) + added(old, new) + kept_after(old, new),
{
    let p = common_prefix(old, new) as int;
    lemma_common_prefix(old, new);
    let s = kept_after_len(old, new) as int;
    lemma_common_suffix(old.skip(p), new.skip(p));
    assert(old.skip(p).skip(old.skip(p).len() - s) =~= old.skip(old.len() - s));
    assert(new.skip(p).skip(new.skip(p).len() - s) =~= new.skip(new.len() - s));
    assert(old =~= kept_before(old, new) + removed(old, new) + kept_after(old, new));
    assert(new =~= kept_before(old, new) + added(old, new) + kept_after(old, new));
}

/// A diff shows no line twice: where lines are both removed and added, the first
/// of them differ.
pub proof fn diff_begins_at_a_difference(old: Seq<Seq<char>>, new: Seq<Seq<char>>)
    ensures
        removed(old, new).len() > 0 && added(old, new).len() > 0 ==> removed(old, new).first()
            != added(old, new).first(),
{
    lemma_common_prefix(old, new);
    let p = common_prefix(old, new) as int;
    lemma_common_suffix(old.skip(p), new.skip(p));
}

/// Between two texts with the same lines there is nothing to show.
pub proof fn diff_of_the_same_is_empty(same: Seq<Seq<char>>)
    ensures
        removed(same, same).len() == 0,
        added(same, same).len() == 0,
{
    lemma_common_prefix(same, same);
    let p = common_prefix(same, same) as int;
    lemma_common_suffix(same.skip(p), same.skip(p));
}

/// Puts the marked lines `lines[from..to]` behind the text in `out`.
fn push_marked(out: &mut String, mark: &str, lines: &Vec<Vec<char>>, from: usize, to: usize)
    requires
        from <= to <= lines@.len(),
    ensures
        final(out)@ == old(out)@ + marked(mark@, texts(lines@).subrange(from as int, to as int)),
{
    let ghost before = out@;
    let ghost all = texts(lines@).subrange(from as int, to as int);
    let mut i: usize = from;
    assert(all.take(0) =~= Seq::empty());
    assert(out@ =~= before + marked(mark@, all.take(0)));
    while i < to
        invariant
            from <= i <= to <= lines@.len(),
            all == texts(lines@).subrange(from as int, to as int),
            out@ == before + marked(mark@, all.take(i - from)),
        decreases to - i,
    {
        push_marked_line(out, mark, &lines[i]);
        proof {
            let next = all.take(i + 1 - from);
            assert(next.drop_last() =~= all.take(i - from));
            assert(next.last() == lines@[i as int]@);
            assert(out@ =~= before + marked(mark@, next));
        }
        i += 1;
    }
    assert(all.take(to - from) =~= all);
}

fn push_marked_line(out: &mut String, mark: &str, line: &Vec<char>)
    ensures
        final(out)@ == old(out)@ + marked_line(mark@, line@),
{
    out.append(mark);
    push_chars(out, line);
    out.append("\n");
    assert(out@ =~= old(out)@ + marked_line(mark@, line@));
}

/// Shows the change from `old_text` to `new_text`.
pub fn format_diff(old_text: &str, new_text: &str) -> (shown: String)
    ensures
        shown@ == diff(old_text@, new_text@),
{
    let old_lines = lines_of(&chars_of(old_text));
    let new_lines = lines_of(&chars_of(new_text));
    let ghost old = texts(old_lines@);
    let ghost new = texts(new_lines@);
    let mut prefix: usize = 0;
    assert(old.skip(0) =~= old);
    assert(new.skip(0) =~= new);
    while prefix < old_lines.len() && prefix < new_lines.len() && same_chars(
        &old_lines[prefix],
        &new_lines[prefix],
    )
        invariant
            old == texts(old_lines@),
            new == texts(new_lines@),
            prefix <= old_lines@.len(),
            prefix <= new_lines@.len(),
            common_prefix(old, new) == prefix + common_prefix(
                old.skip(prefix as int),
                new.skip(prefix as int),
            ),
        decreases old_lines@.len() - prefix,
    {
        proof {
            assert(old.skip(prefix as int).first() == old[prefix as int]);
            assert(new.skip(prefix as int).first() == new[prefix as int]);
            assert(old.skip(prefix as int).drop_first() =~= old.skip(prefix + 1));
            assert(new.skip(prefix as int).drop_first() =~= new.skip(prefix + 1));
        }
        prefix += 1;
    }
    let ghost a = old.skip(prefix as int);
    let ghost b = new.skip(prefix as int);
    proof {
        if prefix < old_lines@.len() && prefix < new_lines@.len() {
            assert(a.first() == old[prefix as int]);
            assert(b.first() == new[prefix as int]);
        }
        assert(common_prefix(a, b) == 0);
    }
    let mut suffix: usize = 0;
    assert(a.take(a.len() as int) =~= a);
    assert(b.take(b.len() as int) =~= b);
    while suffix < old_lines.len() - prefix && suffix < new_lines.len() - prefix && same_chars(
        &old_lines[old_lines.len() - 1 - suffix],
        &new_lines[new_lines.len() - 1 - suffix],
    )
        invariant
            old == texts(old_lines@),
            new == texts(new_lines@),
            prefix <= old_lines@.len(),
            prefix <= new_lines@.len(),
            suffix <= old_lines@.len() - prefix,
            suffix <= new_lines@.len() - prefix,
            a == old.skip(prefix as int),
            b == new.skip(prefix as int),
            common_suffix(a, b) == suffix + common_suffix(
                a.take(a.len() - suffix),
                b.take(b.len() - suffix),
            ),
        decreases old_lines@.len() - suffix,
    {
        proof {
            let a1 = a.take(a.len() - suffix);
            let b1 = b.take(b.len() - suffix);
            assert(a1.last() == old[old.len() - 1 - suffix]);
            assert(b1.last() == new[new.len() - 1 - suffix]);
            assert(a1.drop_last() =~= a.take(a.len() - (suffix + 1)));
            assert(b1.drop_last() =~= b.take(b.len() - (suffix + 1)));
        }
        suffix += 1;
    }
    proof {
        let a1 = a.take(a.len() - suffix);
        let b1 = b.take(b.len() - suffix);
        if a1.len() > 0 && b1.len() > 0 {
            assert(a1.last() == old[old.len() - 1 - suffix]);
            assert(b1.last() == new[new.len() - 1 - suffix]);
        }
        assert(common_suffix(a1, b1) == 0);
    }
    let old_end: usize = old_lines.len() - suffix;
    let new_end: usize = new_lines.len() - suffix;
    let mut shown = "```diff\n".to_owned();
    if prefix > 0 {
        assert(kept_before(old, new).last() == old[prefix - 1]);
        push_marked_line(&mut shown, "  ", &old_lines[prefix - 1]);
    }
    assert(shown@ =~= "```diff\n"@ + (if kept_before(old, new).len() > 0 {
        marked_line("  "@, kept_before(old, new).last())
    } else {
        Seq::empty()
    }));
    push_marked(&mut shown, "- ", &old_lines, prefix, old_end);
    push_marked(&mut shown, "+ ", &new_lines, prefix, new_end);
    let ghost so_far = shown@;
    if new_end < new_lines.len() {
        assert(kept_after(old, new).first() == new[new_end as int]);
        push_marked_line(&mut shown, "  ", &new_lines[new_end]);
    }
    assert(shown@ =~= so_far + (if kept_after(old, new).len() > 0 {
        marked_line("  "@, kept_after(old, new).first())
    } else {
        Seq::empty()
    }));
    shown.append("```");
    shown
}

/// Lines are shown one behind the other, each as its mark, the line and a line
/// feed.
pub proof fn marked_lines_follow_each_other(
    mark: Seq<char>,
    line: Seq<char>,
    first: Seq<Seq<char>>,
    second: Seq<Seq<char>>,
)
    ensures
        marked(mark, Seq::empty()) == Seq::<char>::empty(),
        marked(mark, seq![line]) == mark + line + "\n"@,
        marked(mark, first + second) == marked(mark, first) + marked(mark, second),
    decreases second.len(),
{
    let none = Seq::<Seq<char>>::empty();
    assert(seq![line].drop_last() =~= none);
    assert(marked(mark, none) =~= Seq::empty());
    assert(marked(mark, seq![line]) =~= mark + line + "\n"@);
    if second.len() == 0 {
        assert(first + second =~= first);
        assert(marked(mark, first) + marked(mark, second) =~= marked(mark, first));
    } else {
        assert((first + second).drop_last() =~= first + second.drop_last());
        marked_lines_follow_each_other(mark, line, first, second.drop_last());
        assert(marked(mark, first + second) =~= marked(mark, first) + marked(mark, second));
    }
}

/// The diff of two texts shows what stands between the lines that they have in
/// common at the beginning and those that they have in common at the end: the
/// lines that only the old text has there, with `- `, then those that only the new
/// one has, with `+ `. Of the common lines it shows the one right before and the
/// one right behind.
pub proof fn a_diff_shows_what_differs(
    before: Seq<Seq<char>>,
    gone: Seq<Seq<char>>,
    come: Seq<Seq<char>>,
    behind: Seq<Seq<char>>,
    old: Seq<char>,
    new: Seq<char>,
)
    requires
        lines(old) == before + gone + behind,
        lines(new) == before + come + behind,
        (gone + behind).len() > 0 && (come + behind).len() > 0 ==> (gone + behind)[0] != (come
            + behind)[0],
        gone.len() > 0 && come.len() > 0 ==> gone.last() != come.last(),
    ensures
        diff(old, new) == "```diff\n"@ + (if before.len() > 0 {
            "  "@ + before.last() + "\n"@
        } else {
            Seq::empty()
        }) + marked("- "@, gone) + marked("+ "@, come) + (if behind.len() > 0 {
            "  "@ + behind.first() + "\n"@
        } else {
            Seq::empty()
        }) + "```"@,
{
    let a = lines(old);
    let b = lines(new);
    let p = before.len() as int;
    assert(a =~= before + (gone + behind));
    assert(b =~= before + (come + behind));
    lemma_prefix_is(before, gone + behind, come + behind);
    assert(a.skip(p) =~= gone + behind);
    assert(b.skip(p) =~= come + behind);
    lemma_suffix_is(gone, come, behind);
    assert(kept_before(a, b) =~= before);
    assert(kept_after(a, b) =~= behind);
    assert(removed(a, b) =~= gone);
    assert(added(a, b) =~= come);
}

proof fn lemma_prefix_is(before: Seq<Seq<char>>, a: Seq<Seq<char>>, b: Seq<Seq<char>>)
    requires
        a.len() > 0 && b.len() > 0 ==> a[0] != b[0],
    ensures
        common_prefix(before + a, before + b) == before.len(),
    decreases before.len(),
{
    if before.len() == 0 {
        assert(before + a =~= a);
        assert(before + b =~= b);
    } else {
        assert((before + a).drop_first() =~= before.drop_first() + a);
        assert((before + b).drop_first() =~= before.drop_first() + b);
        lemma_prefix_is(before.drop_first(), a, b);
    }
}

proof fn lemma_suffix_is(a: Seq<Seq<char>>, b: Seq<Seq<char>>, behind: Seq<Seq<char>>)
    requires
        a.len() > 0 && b.len() > 0 ==> a.last() != b.last(),
    ensures
        common_suffix(a + behind, b + behind) == behind.len(),
    decreases behind.len(),
{
    if behind.len() == 0 {
        assert(a + behind =~= a);
        assert(b + behind =~= b);
    } else {
        assert((a + behind).drop_last() =~= a + behind.drop_last());
        assert((b + behind).drop_last() =~= b + behind.drop_last());
        lemma_suffix_is(a, b, behind.drop_last());
    }
}

} // verus!
