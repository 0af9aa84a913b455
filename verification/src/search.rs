//! Finding a pattern in text, counting where it stands, and putting other text
//! in its place.
use vstd::prelude::*;

use crate::text::{chars_of, string_of};

verus! {

/// Whether `pattern` stands in `s` at `i`.
pub open spec fn occurs_at(s: Seq<char>, pattern: Seq<char>, i: int) -> bool {
    0 <= i && i + pattern.len() <= s.len() && s.subrange(i, i + pattern.len()) == pattern
}

/// Whether `pattern` stands anywhere in `s`.
pub open spec fn contains(s: Seq<char>, pattern: Seq<char>) -> bool {
    exists|i: int| occurs_at(s, pattern, i)
}

/// Whether `s` begins with `pattern`.
pub open spec fn starts_with(s: Seq<char>, pattern: Seq<char>) -> bool {
    occurs_at(s, pattern, 0)
}

/// Whether `s` ends with `pattern`.
pub open spec fn ends_with(s: Seq<char>, pattern: Seq<char>) -> bool {
    occurs_at(s, pattern, s.len() - pattern.len())
}

/// The first place at or behind `from` where `pattern` stands in `s`.
pub open spec fn find_from(s: Seq<char>, pattern: Seq<char>, from: int) -> Option<int>
    decreases s.len() + 1 - from,
{
    if from < 0 || from + pattern.len() > s.len() {
        None
    } else if occurs_at(s, pattern, from) {
        Some(from)
    } else {
        find_from(s, pattern, from + 1)
    }
}

/// How often `pattern` stands in `s`, counted from the left so that no two
/// places overlap. The empty pattern stands at each end of `s` and between any
/// two characters.
pub open spec fn count(s: Seq<char>, pattern: Seq<char>) -> nat
    decreases s.len(),
{
    if pattern.len() == 0 {
        s.len() + 1
    } else if s.len() < pattern.len() {
        0
    } else if starts_with(s, pattern) {
        1 + count(s.skip(pattern.len() as int), pattern)
    } else {
        count(s.drop_first(), pattern)
    }
}

/// `filler` at each end of `s` and between any two of its characters.
pub open spec fn interleaved(s: Seq<char>, filler: Seq<char>) -> Seq<char>
    decreases s.len(),
{
    if s.len() == 0 {
        filler
    } else {
        filler + seq![s.first()] + interleaved(s.drop_first(), filler)
    }
}

/// `s` with `replacement` in each of the places that [`count`] counts.
pub open spec fn replaced(s: Seq<char>, pattern: Seq<char>, replacement: Seq<char>) -> Seq<char>
    decreases s.len(),
{
    if pattern.len() == 0 {
        interleaved(s, replacement)
    } else if s.len() < pattern.len() {
        s
    } else if starts_with(s, pattern) {
        replacement + replaced(s.skip(pattern.len() as int), pattern, replacement)
    } else {
        seq![s.first()] + replaced(s.drop_first(), pattern, replacement)
    }
}

/// Where a search begins does not change what it finds, as long as nothing
/// before that place is found: the place found is the first of all, and a search
/// fails only where the pattern does not stand in the text.
pub proof fn find_is_first(s: Seq<char>, pattern: Seq<char>, from: int)
    requires
        0 <= from,
    ensures
        match find_from(s, pattern, from) {
            Some(i) => from <= i && occurs_at(s, pattern, i) && forall|j: int|
                from <= j < i ==> !occurs_at(s, pattern, j),
            None => forall|j: int| from <= j ==> !occurs_at(s, pattern, j),
        },
    decreases s.len() + 1 - from,
{
    if from + pattern.len() <= s.len() && !occurs_at(s, pattern, from) {
        find_is_first(s, pattern, from + 1);
    }
}

/// A pattern is found exactly where it stands in the text.
pub proof fn found_iff_contained(s: Seq<char>, pattern: Seq<char>)
    ensures
        find_from(s, pattern, 0) is Some <==> contains(s, pattern),
{
    find_is_first(s, pattern, 0);
}

/// A pattern that does not stand in the text is counted nowhere, and replacing
/// it changes nothing.
pub proof fn replacing_what_is_absent_changes_nothing(
    s: Seq<char>,
    pattern: Seq<char>,
    replacement: Seq<char>,
)
    requires
        !contains(s, pattern),
    ensures
        count(s, pattern) == 0,
        replaced(s, pattern, replacement) == s,
    decreases s.len(),
{
    if pattern.len() == 0 {
        assert(s.subrange(0, 0) =~= pattern);
        assert(occurs_at(s, pattern, 0));
    } else if s.len() >= pattern.len() {
        assert(!occurs_at(s, pattern, 0));
        assert forall|i: int| !occurs_at(s.drop_first(), pattern, i) by {
            if occurs_at(s.drop_first(), pattern, i) {
                assert(s.subrange(i + 1, i + 1 + pattern.len()) =~= s.drop_first().subrange(
                    i,
                    i + pattern.len(),
                ));
                assert(occurs_at(s, pattern, i + 1));
            }
        }
        replacing_what_is_absent_changes_nothing(s.drop_first(), pattern, replacement);
        assert(seq![s.first()] + s.drop_first() =~= s);
    }
}

/// A pattern is counted exactly where it stands in the text.
pub proof fn what_is_contained_is_counted(s: Seq<char>, pattern: Seq<char>)
    ensures
        count(s, pattern) > 0 <==> contains(s, pattern),
    decreases s.len(),
{
    if pattern.len() == 0 || starts_with(s, pattern) {
        assert(s.subrange(0, pattern.len() as int) =~= pattern);
        assert(occurs_at(s, pattern, 0));
    } else if s.len() >= pattern.len() {
        let rest = s.drop_first();
        what_is_contained_is_counted(rest, pattern);
        assert forall|i: int| #[trigger] occurs_at(s, pattern, i) == occurs_at(
            rest,
            pattern,
            i - 1,
        ) by {
            if 1 <= i && i + pattern.len() <= s.len() {
                assert(rest.subrange(i - 1, i - 1 + pattern.len()) =~= s.subrange(
                    i,
                    i + pattern.len(),
                ));
            }
        }
        if contains(rest, pattern) {
            let i = choose|i: int| occurs_at(rest, pattern, i);
            assert(occurs_at(s, pattern, i + 1));
        }
    }
}

/// Each replacement takes the pattern's length away and adds its own.
pub proof fn replacing_changes_the_length_by_the_count(
    s: Seq<char>,
    pattern: Seq<char>,
    replacement: Seq<char>,
)
    ensures
        replaced(s, pattern, replacement).len() == s.len() + count(s, pattern) * (replacement.len()
            - pattern.len()),
    decreases s.len(),
{
    let d = replacement.len() - pattern.len();
    if pattern.len() == 0 {
        lemma_interleaved_len(s, replacement);
    } else if s.len() < pattern.len() {
        assert(0 * d == 0) by (nonlinear_arith);
    } else if starts_with(s, pattern) {
        let rest = s.skip(pattern.len() as int);
        replacing_changes_the_length_by_the_count(rest, pattern, replacement);
        assert((1 + count(rest, pattern)) * d == d + count(rest, pattern) * d) by (nonlinear_arith);
    } else {
        replacing_changes_the_length_by_the_count(s.drop_first(), pattern, replacement);
    }
}

proof fn lemma_interleaved_len(s: Seq<char>, filler: Seq<char>)
    ensures
        interleaved(s, filler).len() == s.len() + (s.len() + 1) * filler.len(),
    decreases s.len(),
{
    if s.len() > 0 {
        lemma_interleaved_len(s.drop_first(), filler);
        let n = s.len() as int;
        let f = filler.len() as int;
        assert((n + 1) * f == f + n * f) by (nonlinear_arith);
    } else {
        assert((0 + 1) * filler.len() == filler.len()) by (nonlinear_arith);
    }
}

/// Whether `pattern` stands in `s` at `i`.
pub fn occurs_here(s: &[char], pattern: &[char], i: usize) -> (yes: bool)
    requires
        i <= s@.len(),
    ensures
        yes == occurs_at(s@, pattern@, i as int),
{
    if s.len() - i < pattern.len() {
        return false;
    }
    let mut k: usize = 0;
    while k < pattern.len()
        invariant
            k <= pattern@.len(),
            i + pattern@.len() <= s.len(),
            forall|j: int| 0 <= j < k ==> s@[i + j] == pattern@[j],
        decreases pattern@.len() - k,
    {
        if s[i + k] != pattern[k] {
            assert(s@.subrange(i as int, i + pattern@.len())[k as int] != pattern@[k as int]);
            return false;
        }
        k += 1;
    }
    assert(s@.subrange(i as int, i + pattern@.len()) =~= pattern@);
    true
}

/// The first place where `pattern` stands in `s`.
pub fn find_chars(s: &[char], pattern: &[char]) -> (place: Option<usize>)
    ensures
        match place {
            Some(i) => find_from(s@, pattern@, 0) == Some(i as int),
            None => find_from(s@, pattern@, 0) is None,
        },
{
    if s.len() < pattern.len() {
        return None;
    }
    let last: usize = s.len() - pattern.len();
    let mut i: usize = 0;
    while i <= last
        invariant
            i <= last + 1,
            last + pattern@.len() == s@.len(),
            find_from(s@, pattern@, 0) == find_from(s@, pattern@, i as int),
        decreases last + 1 - i,
    {
        if occurs_here(s, pattern, i) {
            return Some(i);
        }
        if i == last {
            proof {
                reveal_with_fuel(find_from, 2);
            }
            return None;
        }
        i += 1;
    }
    None
}

/// Whether `pattern` stands anywhere in `s`.
pub fn contains_chars(s: &[char], pattern: &[char]) -> (yes: bool)
    ensures
        yes == contains(s@, pattern@),
{
    proof {
        found_iff_contained(s@, pattern@);
    }
    find_chars(s, pattern).is_some()
}

/// Whether the text `pattern` stands anywhere in `s`.
pub fn contains_text(s: &[char], pattern: &str) -> (yes: bool)
    ensures
        yes == contains(s@, pattern@),
{
    contains_chars(s, &chars_of(pattern))
}

/// Whether `s` begins with `pattern`.
pub fn starts_with_text(s: &[char], pattern: &str) -> (yes: bool)
    ensures
        yes == starts_with(s@, pattern@),
{
    occurs_here(s, &chars_of(pattern), 0)
}

/// Whether `s` ends with `pattern`.
pub fn ends_with_text(s: &[char], pattern: &str) -> (yes: bool)
    ensures
        yes == ends_with(s@, pattern@),
{
    let pattern = chars_of(pattern);
    if s.len() < pattern.len() {
        false
    } else {
        occurs_here(s, &pattern, s.len() - pattern.len())
    }
}

/// `s` with `replacement` wherever `pattern` stands in it.
pub fn replace_chars(s: &[char], pattern: &[char], replacement: &[char]) -> (out: Vec<char>)
    ensures
        out@ == replaced(s@, pattern@, replacement@),
{
    let mut out: Vec<char> = Vec::new();
    let mut i: usize = 0;
    assert(s@.skip(0) =~= s@);
    if pattern.len() == 0 {
        while i < s.len()
            invariant
                i <= s@.len(),
                interleaved(s@, replacement@) == out@ + interleaved(
                    s@.skip(i as int),
                    replacement@,
                ),
            decreases s@.len() - i,
        {
            let ghost rest = s@.skip(i as int);
            let ghost before = out@;
            push_all(&mut out, replacement);
            out.push(s[i]);
            proof {
                assert(rest.drop_first() =~= s@.skip(i + 1));
                assert(out@ + interleaved(s@.skip(i + 1), replacement@) =~= before + interleaved(
                    rest,
                    replacement@,
                ));
            }
            i += 1;
        }
        push_all(&mut out, replacement);
        return out;
    }
    while i < s.len() && pattern.len() <= s.len() - i
        invariant
            i <= s@.len(),
            pattern@.len() > 0,
            replaced(s@, pattern@, replacement@) == out@ + replaced(
                s@.skip(i as int),
                pattern@,
                replacement@,
            ),
        decreases s@.len() - i,
    {
        let ghost rest = s@.skip(i as int);
        let ghost before = out@;
        assert(rest.subrange(0, pattern@.len() as int) =~= s@.subrange(
            i as int,
            i + pattern@.len(),
        ));
        if occurs_here(s, pattern, i) {
            assert(rest.skip(pattern@.len() as int) =~= s@.skip(i + pattern@.len()));
            push_all(&mut out, replacement);
            i += pattern.len();
        } else {
            assert(rest.drop_first() =~= s@.skip(i + 1));
            out.push(s[i]);
            i += 1;
        }
        assert(out@ + replaced(s@.skip(i as int), pattern@, replacement@) =~= before + replaced(
            rest,
            pattern@,
            replacement@,
        ));
    }
    while i < s.len()
        invariant
            i <= s@.len(),
            replaced(s@, pattern@, replacement@) == out@ + s@.skip(i as int),
        decreases s@.len() - i,
    {
        assert(out@.push(s@[i as int]) + s@.skip(i + 1) =~= out@ + s@.skip(i as int));
        out.push(s[i]);
        i += 1;
    }
    assert(out@ + s@.skip(i as int) =~= out@);
    out
}

/// `s` with `replacement` wherever `pattern` stands in it.
pub fn replace_text(s: &str, pattern: &str, replacement: &str) -> (out: String)
    ensures
        out@ == replaced(s@, pattern@, replacement@),
{
    string_of(&replace_chars(&chars_of(s), &chars_of(pattern), &chars_of(replacement)))
}

/// Puts all of `more` behind what is in `out`.
pub fn push_all(out: &mut Vec<char>, more: &[char])
    ensures
        final(out)@ == old(out)@ + more@,
{
    let ghost before = out@;
    let mut i: usize = 0;
    while i < more.len()
        invariant
            i <= more@.len(),
            out@ == before + more@.take(i as int),
        decreases more@.len() - i,
    {
        out.push(more[i]);
        i += 1;
    }
}

/// That a pattern stands in a text means that the text is what is before it, the
/// pattern, and what is behind it, character for character.
pub proof fn standing_is_being_a_part(before: Seq<char>, pattern: Seq<char>, behind: Seq<char>)
    ensures
        occurs_at(before + pattern + behind, pattern, before.len() as int),
        contains(before + pattern + behind, pattern),
        starts_with(pattern + behind, pattern),
        ends_with(before + pattern, pattern),
{
    let whole = before + pattern + behind;
    let at = before.len() as int;
    assert(whole.subrange(at, at + pattern.len()) =~= pattern);
    assert((pattern + behind).subrange(0, pattern.len() as int) =~= pattern);
    assert((before + pattern).subrange(at, at + pattern.len()) =~= pattern);
}

/// Where a pattern stands in a text, the text is what is before it, the pattern,
/// and what is behind it; at its beginning nothing is before it, at its end
/// nothing behind it.
pub proof fn what_stands_is_a_part(s: Seq<char>, pattern: Seq<char>, i: int)
    ensures
        occurs_at(s, pattern, i) ==> 0 <= i <= i + pattern.len() <= s.len() && s == s.take(i)
            + pattern + s.skip(i + pattern.len()),
        starts_with(s, pattern) ==> s == pattern + s.skip(pattern.len() as int),
        ends_with(s, pattern) ==> s == s.take(s.len() - pattern.len()) + pattern,
        contains(s, pattern) ==> exists|before: Seq<char>, behind: Seq<char>| #[trigger]
            (before + pattern + behind) == s,
{
    if occurs_at(s, pattern, i) {
        lemma_parts(s, pattern, i);
    }
    if starts_with(s, pattern) {
        lemma_parts(s, pattern, 0);
        assert(s =~= pattern + s.skip(pattern.len() as int));
    }
    if ends_with(s, pattern) {
        lemma_parts(s, pattern, s.len() - pattern.len());
        assert(s =~= s.take(s.len() - pattern.len()) + pattern);
    }
    if contains(s, pattern) {
        let k = choose|k: int| occurs_at(s, pattern, k);
        lemma_parts(s, pattern, k);
        assert(s.take(k) + pattern + s.skip(k + pattern.len()) == s);
    }
}

proof fn lemma_parts(s: Seq<char>, pattern: Seq<char>, i: int)
    requires
        occurs_at(s, pattern, i),
    ensures
        s == s.take(i) + pattern + s.skip(i + pattern.len()),
{
    let whole = s.take(i) + pattern + s.skip(i + pattern.len());
    assert forall|k: int| 0 <= k < s.len() implies s[k] == whole[k] by {
        if i <= k < i + pattern.len() {
            assert(s.subrange(i, i + pattern.len())[k - i] == s[k]);
        }
    }
    assert(s =~= whole);
}

/// Replacing goes from the left: behind what is before the first place where the
/// pattern stands comes the replacement, and behind that what replacing makes of
/// all that follows the pattern there. That place counts as one.
pub proof fn replacing_goes_from_the_left(
    before: Seq<char>,
    pattern: Seq<char>,
    behind: Seq<char>,
    replacement: Seq<char>,
)
    requires
        pattern.len() > 0,
        forall|j: int|
            0 <= j < before.len() ==> !#[trigger] occurs_at(before + pattern + behind, pattern, j),
    ensures
        replaced(before + pattern + behind, pattern, replacement) == before + replacement
            + replaced(behind, pattern, replacement),
        count(before + pattern + behind, pattern) == 1 + count(behind, pattern),
    decreases before.len(),
{
    let s = before + pattern + behind;
    let n = pattern.len() as int;
    if before.len() == 0 {
        assert(s =~= pattern + behind);
        assert(s.subrange(0, n) =~= pattern);
        assert(s.skip(n) =~= behind);
        assert(before + replacement =~= replacement);
    } else {
        let rest = s.drop_first();
        assert(!occurs_at(s, pattern, 0));
        assert(rest =~= before.drop_first() + pattern + behind);
        assert forall|j: int| 0 <= j < before.drop_first().len() implies !#[trigger] occurs_at(
            before.drop_first() + pattern + behind,
            pattern,
            j,
        ) by {
            assert(!occurs_at(s, pattern, j + 1));
            if j + n <= rest.len() {
                assert(rest.subrange(j, j + n) =~= s.subrange(j + 1, j + 1 + n));
            }
        }
        replacing_goes_from_the_left(before.drop_first(), pattern, behind, replacement);
        assert(replaced(s, pattern, replacement) =~= before + replacement + replaced(
            behind,
            pattern,
            replacement,
        ));
    }
}

/// The empty pattern stands before each character of a text and at its end.
pub proof fn the_empty_pattern_stands_everywhere(c: char, s: Seq<char>, replacement: Seq<char>)
    ensures
        count(s, Seq::empty()) == s.len() + 1,
        replaced(Seq::empty(), Seq::empty(), replacement) == replacement,
        replaced(seq![c] + s, Seq::empty(), replacement) == replacement + seq![c] + replaced(
            s,
            Seq::empty(),
            replacement,
        ),
{
    assert((seq![c] + s).drop_first() =~= s);
}

} // verus!
