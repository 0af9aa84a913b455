//! Editing a file by content, or by line numbers.
use vstd::pervasive::unreached;
use vstd::prelude::*;
use vstd::slice::slice_subrange;
use vstd::utf8::{decode_utf8, encode_utf8, encode_utf8_decode_utf8, is_char_boundary};

use crate::diff::{diff, format_diff};
use crate::line_mode::{line_edit, run_line_mode};
use crate::lines::{
    join_chars, joined, lemma_next_newline, lines, lines_of, next_newline, texts,
};
use crate::model_discovery::name_part;
use crate::number::{decimal, push_decimal};
use crate::rows::rows;
use crate::search::{
    contains, contains_text, count, ends_with, occurs_at, occurs_here, push_all, replace_text,
    replaced, starts_with,
};
use crate::text::{chars_of, push_chars, string_of, trim, trim_chars};

verus! {

/// How a file is to be edited: by content (`find` and `replace`), or by line
/// numbers (`start_line`, `end_line` and `new_text`).
#[derive(Clone, Debug)]
pub struct ReplaceLinesInput {
    /// The full path of the file to edit. Begins with the name of a root
    /// directory of the project.
    pub path: String,
    /// The text to find in the file, character for character. It may run over
    /// several lines.
    pub find: Option<String>,
    /// The text to put in place of the text found. Must be present when `find` is.
    pub replace: Option<String>,
    /// Replace every occurrence of `find` that `around` leaves. The response
    /// tells how many replacements were made.
    pub all: bool,
    /// Narrows the match: must stand in a line of the match or next to it.
    pub around: Option<String>,
    /// Which occurrence to replace, counted from 1. Needed only where there are
    /// several.
    pub occurrence: Option<u32>,
    /// The first line to replace, counted from 1.
    pub start_line: Option<u32>,
    /// The last line to replace. `start_line` where it is missing.
    pub end_line: Option<u32>,
    /// The text to put in place of the lines `start_line..=end_line`, with a line
    /// feed at its end where the last of its lines needs one.
    pub new_text: Option<String>,
}

/// How many lines away from a match `around` may stand.
pub const AROUND_WINDOW: usize = 1;

/// A place where the text to find stands: which match it is and in which line it
/// begins, both counted from 1, its lines with their neighbours, and where it
/// begins, in characters from the start of the file.
#[derive(Debug)]
pub struct MatchInfo {
    pub index: u128,
    pub line: u128,
    pub context: String,
    pub start: usize,
}

/// What a [`MatchInfo`] holds.
pub struct MatchView {
    pub index: nat,
    pub line: nat,
    pub context: Seq<char>,
    pub start: nat,
}

impl View for MatchInfo {
    type V = MatchView;

    open spec fn view(&self) -> MatchView {
        MatchView {
            index: self.index as nat,
            line: self.line as nat,
            context: self.context@,
            start: self.start as nat,
        }
    }
}

/// What an optional string holds.
pub open spec fn opt_view(s: Option<String>) -> Option<Seq<char>> {
    match s {
        Some(s) => Some(s@),
        None => None,
    }
}

/// What an optional string slice holds.
pub open spec fn opt_str_view(s: Option<&str>) -> Option<Seq<char>> {
    match s {
        Some(s) => Some(s@),
        None => None,
    }
}

/// How many line feeds stand in `s`.
pub open spec fn newlines(s: Seq<char>) -> nat
    decreases s.len(),
{
    if s.len() == 0 {
        0
    } else {
        newlines(s.drop_last()) + (if s.last() == '\n' {
            1nat
        } else {
            0
        })
    }
}

/// The line, counted from 0, in which the place `i` of `text` is.
pub open spec fn line_at(text: Seq<char>, i: int) -> int {
    newlines(text.take(i)) as int
}

/// How many lines behind its first one a text like `needle` ends.
pub open spec fn further_lines(needle: Seq<char>) -> int {
    if needle.len() == 0 {
        0
    } else {
        newlines(needle.drop_last()) as int
    }
}

/// The first of `lines` to look at for something from line `first` on: the one
/// before it.
pub open spec fn window_start(lines: Seq<Seq<char>>, first: int) -> int {
    if first < AROUND_WINDOW {
        0
    } else if first - AROUND_WINDOW < lines.len() {
        first - AROUND_WINDOW
    } else {
        lines.len() as int
    }
}

/// The end of the part of `lines` to look at for something up to line `last`: the
/// line behind it belongs to it.
pub open spec fn window_end(lines: Seq<Seq<char>>, last: int) -> int {
    if last + AROUND_WINDOW + 1 < lines.len() {
        last + AROUND_WINDOW + 1
    } else {
        lines.len() as int
    }
}

/// Whether `around` stands in a line of the match of `needle` at `i`, or in one at
/// most [`AROUND_WINDOW`] away.
pub open spec fn is_near(text: Seq<char>, needle: Seq<char>, around: Seq<char>, i: int) -> bool {
    let first = line_at(text, i);
    exists|j: int|
        window_start(lines(text), first) <= j < window_end(
            lines(text),
            first + further_lines(needle),
        ) && contains(#[trigger] lines(text)[j], around)
}

/// Whether `around`, if given, stands near the match of `needle` at `i`.
pub open spec fn is_admitted(
    text: Seq<char>,
    needle: Seq<char>,
    around: Option<Seq<char>>,
    i: int,
) -> bool {
    match around {
        Some(around) => is_near(text, needle, around, i),
        None => true,
    }
}

/// Whether there is a match at `i`: `needle` stands there, character for
/// character, and `around`, if given, stands near.
pub open spec fn is_match(
    text: Seq<char>,
    needle: Seq<char>,
    around: Option<Seq<char>>,
    i: int,
) -> bool {
    occurs_at(text, needle, i) && is_admitted(text, needle, around, i)
}

/// The places before `end` where there is a match, in order.
pub open spec fn matching_places(
    text: Seq<char>,
    needle: Seq<char>,
    around: Option<Seq<char>>,
    end: int,
) -> Seq<int>
    decreases end,
{
    if end <= 0 {
        Seq::empty()
    } else if is_match(text, needle, around, end - 1) {
        matching_places(text, needle, around, end - 1).push(end - 1)
    } else {
        matching_places(text, needle, around, end - 1)
    }
}

/// The lines of `lines` from `first` to `last`, with the line before them and the
/// line behind them.
pub open spec fn context_of(lines: Seq<Seq<char>>, first: int, last: int) -> Seq<char> {
    joined(lines.subrange(window_start(lines, first), window_end(lines, last)), "\n"@)
}

/// The match of `needle` at `i`, as the match number `index`.
pub open spec fn match_at(text: Seq<char>, needle: Seq<char>, index: int, i: int) -> MatchView {
    let first = line_at(text, i);
    MatchView {
        index: index as nat,
        line: (first + 1) as nat,
        context: context_of(lines(text), first, first + further_lines(needle)),
        start: i as nat,
    }
}

/// The matches of `needle` in `haystack`.
pub open spec fn matches_in(
    haystack: Seq<char>,
    needle: Seq<char>,
    around: Option<Seq<char>>,
) -> Seq<MatchView> {
    let places = matching_places(haystack, needle, around, haystack.len() as int + 1);
    Seq::new(places.len(), |i: int| match_at(haystack, needle, i + 1, places[i]))
}

/// What a sequence of matches holds.
pub open spec fn match_views(matches: Seq<MatchInfo>) -> Seq<MatchView> {
    matches.map_values(|m: MatchInfo| m@)
}

proof fn lemma_matching_places(
    text: Seq<char>,
    needle: Seq<char>,
    around: Option<Seq<char>>,
    end: int,
)
    requires
        0 <= end,
    ensures
        matching_places(text, needle, around, end).len() <= end,
        forall|i: int|
            0 <= i < matching_places(text, needle, around, end).len() ==> 0
                <= #[trigger] matching_places(text, needle, around, end)[i] < end && is_match(
                text,
                needle,
                around,
                matching_places(text, needle, around, end)[i],
            ),
        forall|i: int, j: int|
            0 <= i < j < matching_places(text, needle, around, end).len() ==> matching_places(
                text,
                needle,
                around,
                end,
            )[i] < matching_places(text, needle, around, end)[j],
        forall|k: int|
            0 <= k < end && is_match(text, needle, around, k) ==> #[trigger] matching_places(
                text,
                needle,
                around,
                end,
            ).contains(k),
    decreases end,
{
    if end > 0 {
        lemma_matching_places(text, needle, around, end - 1);
        let shorter = matching_places(text, needle, around, end - 1);
        let whole = matching_places(text, needle, around, end);
        assert forall|k: int| 0 <= k < end && is_match(text, needle, around, k) implies #[trigger]
        whole.contains(k) by {
            if k < end - 1 {
                assert(shorter.contains(k));
                let i = choose|i: int| 0 <= i < shorter.len() && shorter[i] == k;
                assert(whole[i] == k);
            } else {
                assert(whole[whole.len() - 1] == k);
            }
        }
    }
}

/// The matches are all the places where the text to find stands and that
/// `around` leaves, each once, from the first to the last, also where two of them
/// are in one line or overlap; and they are numbered from 1.
pub proof fn matches_are_the_occurrences(
    haystack: Seq<char>,
    needle: Seq<char>,
    around: Option<Seq<char>>,
)
    ensures
        forall|i: int|
            0 <= i < matches_in(haystack, needle, around).len() ==> {
                let m = #[trigger] matches_in(haystack, needle, around)[i];
                &&& m.index == i + 1
                &&& m.line == line_at(haystack, m.start as int) + 1
                &&& is_match(haystack, needle, around, m.start as int)
            },
        forall|i: int, j: int|
            0 <= i < j < matches_in(haystack, needle, around).len() ==> matches_in(
                haystack,
                needle,
                around,
            )[i].start < matches_in(haystack, needle, around)[j].start,
        forall|k: int| #[trigger]
            is_match(haystack, needle, around, k) ==> exists|i: int|
                0 <= i < matches_in(haystack, needle, around).len() && (#[trigger] matches_in(
                    haystack,
                    needle,
                    around,
                )[i]).start == k,
{
    let end = haystack.len() as int + 1;
    let places = matching_places(haystack, needle, around, end);
    lemma_matching_places(haystack, needle, around, end);
    assert forall|k: int| #[trigger]
        is_match(haystack, needle, around, k) implies exists|i: int|
        0 <= i < matches_in(haystack, needle, around).len() && (#[trigger] matches_in(
            haystack,
            needle,
            around,
        )[i]).start == k by {
        assert(places.contains(k));
        let i = choose|i: int| 0 <= i < places.len() && places[i] == k;
        assert(matches_in(haystack, needle, around)[i].start == k);
    }
}

/// `around` only narrows: what matches with it matches without it.
pub proof fn around_only_narrows(
    text: Seq<char>,
    needle: Seq<char>,
    around: Seq<char>,
    i: int,
)
    requires
        is_match(text, needle, Some(around), i),
    ensures
        is_match(text, needle, None, i),
{
}

proof fn lemma_newlines_of_parts(a: Seq<char>, b: Seq<char>)
    ensures
        newlines(a + b) == newlines(a) + newlines(b),
        newlines(b) <= b.len(),
    decreases b.len(),
{
    if b.len() == 0 {
        assert(a + b =~= a);
    } else {
        assert((a + b).drop_last() =~= a + b.drop_last());
        lemma_newlines_of_parts(a, b.drop_last());
    }
}

/// A match is in the text with all its lines.
proof fn lemma_lines_of_match(text: Seq<char>, needle: Seq<char>, i: int)
    requires
        occurs_at(text, needle, i),
    ensures
        0 <= line_at(text, i) <= i,
        0 <= further_lines(needle),
        line_at(text, i) + further_lines(needle) <= text.len(),
{
    lemma_newlines_of_parts(Seq::empty(), text.take(i));
    if needle.len() > 0 {
        lemma_newlines_of_parts(Seq::empty(), needle.drop_last());
    }
}

/// Whether one of `lines[from..to]` holds `around`.
fn any_contains(lines: &Vec<Vec<char>>, from: usize, to: usize, around: &str) -> (yes: bool)
    requires
        from <= to <= lines@.len(),
    ensures
        yes == exists|j: int| from <= j < to && contains(#[trigger] texts(lines@)[j], around@),
{
    let mut i: usize = from;
    while i < to
        invariant
            from <= i <= to <= lines@.len(),
            forall|j: int| from <= j < i ==> !contains(#[trigger] texts(lines@)[j], around@),
        decreases to - i,
    {
        if contains_text(&lines[i], around) {
            assert(contains(texts(lines@)[i as int], around@));
            return true;
        }
        i += 1;
    }
    false
}

/// The lines `lines[from..to]`, with line feeds between them.
fn join_range(lines: &Vec<Vec<char>>, from: usize, to: usize) -> (out: String)
    requires
        from <= to <= lines@.len(),
    ensures
        out@ == joined(texts(lines@).subrange(from as int, to as int), "\n"@),
{
    let part = slice_subrange(lines.as_slice(), from, to);
    assert(texts(part@) =~= texts(lines@).subrange(from as int, to as int));
    string_of(&join_chars(part, "\n"))
}

/// How many line feeds stand in `chars`.
fn count_newlines(chars: &[char]) -> (n: usize)
    ensures
        n == newlines(chars@),
{
    let mut n: usize = 0;
    let mut i: usize = 0;
    assert(chars@.take(0) =~= Seq::empty());
    while i < chars.len()
        invariant
            i <= chars@.len(),
            n <= i,
            n == newlines(chars@.take(i as int)),
        decreases chars@.len() - i,
    {
        assert(chars@.take(i + 1).drop_last() =~= chars@.take(i as int));
        if chars[i] == '\n' {
            n += 1;
        }
        i += 1;
    }
    assert(chars@.take(i as int) =~= chars@);
    n
}

/// [`further_lines`].
fn lines_further(needle: &[char]) -> (n: usize)
    ensures
        n == further_lines(needle@),
{
    if needle.len() == 0 {
        return 0;
    }
    let part = slice_subrange(needle, 0, needle.len() - 1);
    assert(part@ =~= needle@.drop_last());
    count_newlines(part)
}

/// The part of the lines `all` to look at for a match from line `first` to line
/// `last`: where it begins and where it ends.
fn window(all: &Vec<Vec<char>>, first: usize, last: usize) -> (part: (usize, usize))
    requires
        first <= last,
    ensures
        part.0 == window_start(texts(all@), first as int),
        part.1 == window_end(texts(all@), last as int),
        part.0 <= part.1 <= all@.len(),
{
    let n: usize = all.len();
    let from: usize = if first < AROUND_WINDOW {
        0
    } else if first - AROUND_WINDOW < n {
        first - AROUND_WINDOW
    } else {
        n
    };
    let to: usize = if last < n && n - last > AROUND_WINDOW + 1 {
        last + AROUND_WINDOW + 1
    } else {
        n
    };
    (from, to)
}

/// Whether `around`, if given, stands in one of `all[from..to]`.
fn admits(all: &Vec<Vec<char>>, from: usize, to: usize, around: Option<&str>) -> (yes: bool)
    requires
        from <= to <= all@.len(),
    ensures
        yes == match opt_str_view(around) {
            Some(around) => exists|j: int|
                from <= j < to && contains(#[trigger] texts(all@)[j], around),
            None => true,
        },
{
    match around {
        Some(around) => any_contains(all, from, to, around),
        None => true,
    }
}

/// The places where `needle` stands in `haystack` and near which `around`, if
/// given, stands: in a line of the match or next to it.
pub fn find_matches(haystack: &str, needle: &str, around: Option<&str>) -> (matches: Vec<MatchInfo>)
    ensures
        match_views(matches@) == matches_in(haystack@, needle@, opt_str_view(around)),
{
    let mut matches: Vec<MatchInfo> = Vec::new();
    let chars = chars_of(haystack);
    let needle_chars = chars_of(needle);
    let further: usize = lines_further(&needle_chars);
    let all = lines_of(&chars);
    let ghost text = haystack@;
    let ghost near = opt_str_view(around);
    let mut line: usize = 0;
    let mut i: usize = 0;
    assert(text.take(0) =~= Seq::empty());
    loop
        invariant
            i <= chars@.len(),
            chars@ == text,
            text == haystack@,
            needle_chars@ == needle@,
            further == further_lines(needle@),
            texts(all@) == lines(text),
            near == opt_str_view(around),
            line == line_at(text, i as int),
            line <= i,
            matches@.len() <= i,
            matches@.len() == matching_places(text, needle@, near, i as int).len(),
            forall|k: int|
                0 <= k < matches@.len() ==> (#[trigger] matches@[k])@ == match_at(
                    text,
                    needle@,
                    k + 1,
                    matching_places(text, needle@, near, i as int)[k],
                ),
        decreases chars@.len() - i,
    {
        let ghost before = matches@;
        let ghost places = matching_places(text, needle@, near, i as int);
        if occurs_here(&chars, &needle_chars, i) {
            proof {
                lemma_lines_of_match(text, needle@, i as int);
            }
            assert(line + further <= chars.len());
            let (from, to) = window(&all, line, line + further);
            if admits(&all, from, to, around) {
                assert(is_match(text, needle@, near, i as int));
                let m = MatchInfo {
                    index: matches.len() as u128 + 1,
                    line: line as u128 + 1,
                    context: join_range(&all, from, to),
                    start: i,
                };
                assert(m@ == match_at(text, needle@, matches@.len() as int + 1, i as int));
                matches.push(m);
            }
        }
        proof {
            let next = matching_places(text, needle@, near, i + 1);
            assert forall|k: int| 0 <= k < matches@.len() implies (#[trigger] matches@[k])@
                == match_at(text, needle@, k + 1, next[k]) by {
                if k < before.len() {
                    assert(before[k]@ == match_at(text, needle@, k + 1, places[k]));
                }
            }
        }
        if i == chars.len() {
            assert(match_views(matches@) =~= matches_in(haystack@, needle@, near));
            return matches;
        }
        assert(text.take(i + 1).drop_last() =~= text.take(i as int));
        if chars[i] == '\n' {
            line += 1;
        }
        i += 1;
    }
}

/// What an edit comes to: the new text of the file, where it is to be written,
/// whether the file is to be saved then, and what is answered.
#[derive(Debug)]
pub struct Edit {
    pub new_text: Option<String>,
    pub save: bool,
    pub response: Result<String, String>,
}

/// What an [`Edit`] holds.
pub struct EditView {
    pub new_text: Option<Seq<char>>,
    pub save: bool,
    pub response: Result<Seq<char>, Seq<char>>,
}

impl View for Edit {
    type V = EditView;

    open spec fn view(&self) -> EditView {
        EditView {
            new_text: opt_view(self.new_text),
            save: self.save,
            response: match self.response {
                Ok(text) => Ok(text@),
                Err(text) => Err(text@),
            },
        }
    }
}

/// The edit that writes nothing and answers that it failed.
pub open spec fn refused(response: Seq<char>) -> EditView {
    EditView { new_text: None, save: false, response: Err(response) }
}

/// The answer where nothing matches.
pub open spec fn no_match_response(
    find: Seq<char>,
    around: Option<Seq<char>>,
    path: Seq<char>,
) -> Seq<char> {
    "No match found for '"@ + find + "'"@ + (match around {
        Some(around) => " with around '"@ + around + "'"@,
        None => Seq::empty(),
    }) + " in "@ + path
}

/// The answer where all occurrences were replaced.
pub open spec fn all_response(
    replacements: nat,
    find: Seq<char>,
    path: Seq<char>,
    old: Seq<char>,
    new: Seq<char>,
) -> Seq<char> {
    "Replaced "@ + decimal(replacements) + (if replacements == 1 {
        " occurrence of '"@
    } else {
        " occurrences of '"@
    }) + find + "' in "@ + path + "\n\nDiff:\n"@ + diff(old, new)
}

/// The answer where there is no such occurrence.
pub open spec fn out_of_range_response(occurrence: nat, matches: nat) -> Seq<char> {
    "Occurrence "@ + decimal(occurrence) + " is out of range ("@ + decimal(matches) + (if matches
        == 1 {
        " match)"@
    } else {
        " matches)"@
    })
}

/// The answer where one occurrence was replaced.
pub open spec fn occurrence_response(
    index: nat,
    matches: nat,
    find: Seq<char>,
    line: nat,
    path: Seq<char>,
    old: Seq<char>,
    new: Seq<char>,
) -> Seq<char> {
    "Replaced occurrence "@ + decimal(index) + "/"@ + decimal(matches) + " of '"@ + find
        + "' at line "@ + decimal(line) + " in "@ + path + "\n\nDiff:\n"@ + diff(old, new)
}

/// One match as it is listed.
pub open spec fn listed(m: MatchView) -> Seq<char> {
    "  ["@ + decimal(m.index) + "] line "@ + decimal(m.line) + ":\n        "@ + replaced(
        m.context,
        "\n"@,
        "\n        "@,
    ) + "\n\n"@
}

/// The matches as they are listed.
pub open spec fn listing(matches: Seq<MatchView>) -> Seq<char>
    decreases matches.len(),
{
    if matches.len() == 0 {
        Seq::empty()
    } else {
        listing(matches.drop_last()) + listed(matches.last())
    }
}

/// The answer where there are several matches and none was chosen.
pub open spec fn choose_response(
    matches: Seq<MatchView>,
    find: Seq<char>,
    path: Seq<char>,
) -> Seq<char> {
    "Found "@ + decimal(matches.len()) + " matches for '"@ + find + "' in "@ + path
        + ".\nOptions: `all: true` (replace all), `occurrence` (pick one), or `around` (narrow scope).\n\nMatches:\n"@
        + listing(matches)
}

/// `text` with `replacement` in place of the `len` characters at `i`, and all
/// else as it is.
pub open spec fn spliced(text: Seq<char>, i: int, len: int, replacement: Seq<char>) -> Seq<char> {
    text.take(i) + replacement + text.skip(i + len)
}

/// `text` from `from` on, with `replacement` in place of each match, from the left
/// so that no two replacements overlap.
pub open spec fn all_replaced(
    text: Seq<char>,
    find: Seq<char>,
    replacement: Seq<char>,
    around: Option<Seq<char>>,
    from: int,
) -> Seq<char>
    decreases text.len() + 1 - from,
{
    if from < 0 || from > text.len() {
        Seq::empty()
    } else if is_match(text, find, around, from) {
        if find.len() > 0 {
            replacement + all_replaced(text, find, replacement, around, from + find.len())
        } else if from < text.len() {
            replacement + seq![text[from]] + all_replaced(
                text,
                find,
                replacement,
                around,
                from + 1,
            )
        } else {
            replacement
        }
    } else if from < text.len() {
        seq![text[from]] + all_replaced(text, find, replacement, around, from + 1)
    } else {
        Seq::empty()
    }
}

/// How many replacements [`all_replaced`] makes.
pub open spec fn replacements(
    text: Seq<char>,
    find: Seq<char>,
    around: Option<Seq<char>>,
    from: int,
) -> nat
    decreases text.len() + 1 - from,
{
    if from < 0 || from > text.len() {
        0
    } else if is_match(text, find, around, from) {
        1 + replacements(
            text,
            find,
            around,
            if find.len() > 0 {
                from + find.len()
            } else {
                from + 1
            },
        )
    } else {
        replacements(text, find, around, from + 1)
    }
}

/// The match that is chosen, counted from 0: the one that `occurrence` tells,
/// the first where it tells none.
pub open spec fn chosen(occurrence: Option<u32>) -> int {
    match occurrence {
        Some(n) => if n > 0 {
            n - 1
        } else {
            0
        },
        None => 0,
    }
}

/// The edit of `text` by content.
pub open spec fn find_replace(
    text: Seq<char>,
    find: Seq<char>,
    replacement: Seq<char>,
    all: bool,
    around: Option<Seq<char>>,
    occurrence: Option<u32>,
    path: Seq<char>,
) -> EditView {
    let matches = matches_in(text, find, around);
    if matches.len() == 0 {
        refused(no_match_response(find, around, path))
    } else if all {
        let new = all_replaced(text, find, replacement, around, 0);
        EditView {
            new_text: Some(new),
            save: false,
            response: Ok(all_response(replacements(text, find, around, 0), find, path, text, new)),
        }
    } else if matches.len() == 1 || occurrence is Some {
        let i = chosen(occurrence);
        if i >= matches.len() {
            refused(out_of_range_response(occurrence->0 as nat, matches.len()))
        } else {
            let new = spliced(text, matches[i].start as int, find.len() as int, replacement);
            EditView {
                new_text: Some(new),
                save: false,
                response: Ok(
                    occurrence_response(
                        (i + 1) as nat,
                        matches.len(),
                        find,
                        matches[i].line,
                        path,
                        text,
                        new,
                    ),
                ),
            }
        }
    } else {
        refused(choose_response(matches, find, path))
    }
}

/// An edit by content never guesses: it writes only where there is a single
/// match, or where the caller chose one match or all of them. With several
/// matches and no choice it writes nothing and lists them.
pub proof fn edit_by_content_never_guesses(
    text: Seq<char>,
    find: Seq<char>,
    replacement: Seq<char>,
    all: bool,
    around: Option<Seq<char>>,
    occurrence: Option<u32>,
    path: Seq<char>,
)
    ensures
        ({
            let edit = find_replace(text, find, replacement, all, around, occurrence, path);
            let matches = matches_in(text, find, around);
            &&& edit.new_text is Some ==> matches.len() == 1 || all || occurrence is Some
            &&& matches.len() > 1 && !all && occurrence is None ==> edit == refused(
                choose_response(matches, find, path),
            )
        }),
{
}

/// An edit by content writes exactly where it answers that it succeeded.
pub proof fn edit_by_content_writes_iff_it_succeeds(
    text: Seq<char>,
    find: Seq<char>,
    replacement: Seq<char>,
    all: bool,
    around: Option<Seq<char>>,
    occurrence: Option<u32>,
    path: Seq<char>,
)
    ensures
        ({
            let edit = find_replace(text, find, replacement, all, around, occurrence, path);
            edit.new_text is Some <==> edit.response is Ok
        }),
{
}

/// Without an explicit choice, whether an edit succeeds depends on the number of
/// matches alone: it does with one, and with any number where all are to be
/// replaced.
pub proof fn edit_by_content_succeeds_on_a_single_match(
    text: Seq<char>,
    find: Seq<char>,
    replacement: Seq<char>,
    all: bool,
    around: Option<Seq<char>>,
    path: Seq<char>,
)
    ensures
        ({
            let edit = find_replace(text, find, replacement, all, around, None, path);
            let n = matches_in(text, find, around).len();
            edit.response is Ok <==> n == 1 || (all && n > 0)
        }),
{
}

/// Whether `find` stands in `text` at `i` and nowhere else.
pub open spec fn occurs_only_at(text: Seq<char>, find: Seq<char>, i: int) -> bool {
    occurs_at(text, find, i) && forall|j: int| occurs_at(text, find, j) ==> j == i
}

/// An edit that nothing narrows and that makes no choice is made exactly where
/// the text to find stands in the file once, character for character, and then it
/// is there that the replacement is put, and nothing else changes.
pub proof fn a_text_must_occur_exactly_once(
    text: Seq<char>,
    find: Seq<char>,
    replacement: Seq<char>,
    path: Seq<char>,
)
    ensures
        ({
            let edit = find_replace(text, find, replacement, false, None, None, path);
            &&& edit.response is Ok <==> exists|i: int| occurs_only_at(text, find, i)
            &&& forall|i: int| #[trigger]
                occurs_only_at(text, find, i) ==> edit.new_text == Some(
                    spliced(text, i, find.len() as int, replacement),
                )
        }),
{
    matches_are_the_occurrences(text, find, None);
    let matches = matches_in(text, find, None);
    if matches.len() == 1 {
        let i = matches[0].start as int;
        assert(is_match(text, find, None, i));
        assert forall|j: int| occurs_at(text, find, j) implies j == i by {
            assert(is_match(text, find, None, j));
        }
        assert(occurs_only_at(text, find, i));
    }
    assert forall|i: int| #[trigger] occurs_only_at(text, find, i) implies matches.len() == 1
        && matches[0].start == i by {
        assert(is_match(text, find, None, i));
        let k = choose|k: int| 0 <= k < matches.len() && (#[trigger] matches[k]).start == i;
        assert(matches[k].start == i);
        assert(is_match(text, find, None, matches[0].start as int));
        if matches.len() > 1 {
            assert(is_match(text, find, None, matches[1].start as int));
            assert(matches[0].start < matches[1].start);
        }
    }
}

/// An edit of one match puts the replacement where the text to find stands, and
/// leaves all that is before it and behind it as it is.
pub proof fn an_edit_changes_one_place_alone(
    text: Seq<char>,
    find: Seq<char>,
    replacement: Seq<char>,
    around: Option<Seq<char>>,
    occurrence: Option<u32>,
    path: Seq<char>,
)
    ensures
        ({
            let edit = find_replace(text, find, replacement, false, around, occurrence, path);
            edit.new_text is Some ==> exists|i: int| #[trigger]
                is_match(text, find, around, i) && {
                    let new = edit.new_text->0;
                    &&& new.len() == text.len() - find.len() + replacement.len()
                    &&& new.take(i) == text.take(i)
                    &&& occurs_at(new, replacement, i)
                    &&& new.skip(i + replacement.len()) == text.skip(i + find.len())
                }
        }),
{
    matches_are_the_occurrences(text, find, around);
    let matches = matches_in(text, find, around);
    let k = chosen(occurrence);
    if (matches.len() == 1 || occurrence is Some) && k < matches.len() {
        let i = matches[k].start as int;
        assert(is_match(text, find, around, i));
        let new = spliced(text, i, find.len() as int, replacement);
        assert(new.take(i) =~= text.take(i));
        assert(new.subrange(i, i + replacement.len()) =~= replacement);
        assert(new.skip(i + replacement.len()) =~= text.skip(i + find.len()));
    }
}

/// An edit of all matches that succeeds has replaced something.
pub proof fn an_edit_of_all_replaces_something(
    text: Seq<char>,
    find: Seq<char>,
    around: Option<Seq<char>>,
)
    ensures
        matches_in(text, find, around).len() > 0 ==> replacements(text, find, around, 0) > 0,
{
    if matches_in(text, find, around).len() > 0 {
        matches_are_the_occurrences(text, find, around);
        lemma_some_replacement(
            text,
            find,
            around,
            0,
            matches_in(text, find, around)[0].start as int,
        );
    }
}

proof fn lemma_some_replacement(
    text: Seq<char>,
    find: Seq<char>,
    around: Option<Seq<char>>,
    from: int,
    i: int,
)
    requires
        0 <= from <= i,
        is_match(text, find, around, i),
    ensures
        replacements(text, find, around, from) > 0,
    decreases i - from,
{
    if !is_match(text, find, around, from) {
        lemma_some_replacement(text, find, around, from + 1, i);
    }
}

/// Where nothing narrows it, an edit of all matches replaces every occurrence in
/// the file, and tells their number.
pub proof fn an_edit_of_all_replaces_every_occurrence(
    text: Seq<char>,
    find: Seq<char>,
    replacement: Seq<char>,
)
    ensures
        all_replaced(text, find, replacement, None, 0) == replaced(text, find, replacement),
        replacements(text, find, None, 0) == count(text, find),
{
    assert(text.skip(0) =~= text);
    lemma_all_from(text, find, replacement, 0);
}

proof fn lemma_all_from(text: Seq<char>, find: Seq<char>, replacement: Seq<char>, from: int)
    requires
        0 <= from <= text.len(),
    ensures
        all_replaced(text, find, replacement, None, from) == replaced(
            text.skip(from),
            find,
            replacement,
        ),
        replacements(text, find, None, from) == count(text.skip(from), find),
    decreases text.len() - from,
{
    let rest = text.skip(from);
    let n = find.len() as int;
    if n == 0 {
        assert(text.subrange(from, from) =~= find);
        if from < text.len() {
            lemma_all_from(text, find, replacement, from + 1);
            assert(rest.drop_first() =~= text.skip(from + 1));
        } else {
            assert(replacements(text, find, None, from + 1) == 0);
        }
    } else if rest.len() < n {
        if from < text.len() {
            lemma_all_from(text, find, replacement, from + 1);
            assert(rest =~= seq![text[from]] + text.skip(from + 1));
        } else {
            assert(replacements(text, find, None, from + 1) == 0);
            assert(rest =~= Seq::empty());
        }
    } else {
        assert(rest.subrange(0, n) =~= text.subrange(from, from + n));
        if occurs_at(text, find, from) {
            lemma_all_from(text, find, replacement, from + n);
            assert(rest.skip(n) =~= text.skip(from + n));
        } else {
            lemma_all_from(text, find, replacement, from + 1);
            assert(rest.drop_first() =~= text.skip(from + 1));
        }
    }
}

fn refuse(response: String) -> (edit: Edit)
    ensures
        edit@ == refused(response@),
{
    Edit { new_text: None, save: false, response: Err(response) }
}

fn no_match_text(find: &str, around: Option<&str>, path: &str) -> (s: String)
    ensures
        s@ == no_match_response(find@, opt_str_view(around), path@),
{
    let mut s = "No match found for '".to_owned();
    s.append(find);
    s.append("'");
    let ghost before = s@;
    match around {
        Some(around) => {
            s.append(" with around '");
            s.append(around);
            s.append("'");
            assert(s@ =~= before + (" with around '"@ + around@ + "'"@));
        },
        None => {
            assert(s@ =~= before + Seq::empty());
        },
    }
    s.append(" in ");
    s.append(path);
    s
}

fn all_text(replacements: u128, find: &str, path: &str, old: &str, new: &str) -> (s: String)
    ensures
        s@ == all_response(replacements as nat, find@, path@, old@, new@),
{
    let mut s = "Replaced ".to_owned();
    push_decimal(&mut s, replacements);
    if replacements == 1 {
        s.append(" occurrence of '");
    } else {
        s.append(" occurrences of '");
    }
    s.append(find);
    s.append("' in ");
    s.append(path);
    s.append("\n\nDiff:\n");
    s.append(format_diff(old, new).as_str());
    s
}

fn out_of_range_text(occurrence: u32, matches: usize) -> (s: String)
    ensures
        s@ == out_of_range_response(occurrence as nat, matches as nat),
{
    let mut s = "Occurrence ".to_owned();
    push_decimal(&mut s, occurrence as u128);
    s.append(" is out of range (");
    push_decimal(&mut s, matches as u128);
    if matches == 1 {
        s.append(" match)");
    } else {
        s.append(" matches)");
    }
    s
}

fn occurrence_text(
    index: usize,
    matches: usize,
    find: &str,
    line: u128,
    path: &str,
    old: &str,
    new: &str,
) -> (s: String)
    ensures
        s@ == occurrence_response(
            index as nat,
            matches as nat,
            find@,
            line as nat,
            path@,
            old@,
            new@,
        ),
{
    let mut s = "Replaced occurrence ".to_owned();
    push_decimal(&mut s, index as u128);
    s.append("/");
    push_decimal(&mut s, matches as u128);
    s.append(" of '");
    s.append(find);
    s.append("' at line ");
    push_decimal(&mut s, line);
    s.append(" in ");
    s.append(path);
    s.append("\n\nDiff:\n");
    s.append(format_diff(old, new).as_str());
    s
}

fn choose_text(matches: &Vec<MatchInfo>, find: &str, path: &str) -> (s: String)
    ensures
        s@ == choose_response(match_views(matches@), find@, path@),
{
    let mut s = "Found ".to_owned();
    push_decimal(&mut s, matches.len() as u128);
    s.append(" matches for '");
    s.append(find);
    s.append("' in ");
    s.append(path);
    s.append(
        ".\nOptions: `all: true` (replace all), `occurrence` (pick one), or `around` (narrow scope).\n\nMatches:\n",
    );
    let ghost before = s@;
    let ghost all = match_views(matches@);
    let mut i: usize = 0;
    assert(all.take(0) =~= Seq::empty());
    assert(s@ =~= before + listing(all.take(0)));
    while i < matches.len()
        invariant
            i <= matches@.len(),
            all == match_views(matches@),
            s@ == before + listing(all.take(i as int)),
        decreases matches@.len() - i,
    {
        let m = &matches[i];
        let ghost so_far = s@;
        s.append("  [");
        push_decimal(&mut s, m.index);
        s.append("] line ");
        push_decimal(&mut s, m.line);
        s.append(":\n        ");
        s.append(replace_text(m.context.as_str(), "\n", "\n        ").as_str());
        s.append("\n\n");
        proof {
            assert(s@ =~= so_far + listed(m@));
            let next = all.take(i + 1);
            assert(next.drop_last() =~= all.take(i as int));
            assert(next.last() == m@);
            assert(s@ =~= before + listing(next));
        }
        i += 1;
    }
    assert(all.take(matches@.len() as int) =~= all);
    s
}

/// `text` with `replacement` in place of the `len` characters at `i`.
fn splice(text: &str, i: usize, len: usize, replacement: &str) -> (new: String)
    requires
        i + len <= text@.len(),
    ensures
        new@ == spliced(text@, i as int, len as int, replacement@),
{
    let chars = chars_of(text);
    assert(i + len <= chars.len());
    let before = slice_subrange(&chars, 0, i);
    let behind = slice_subrange(&chars, i + len, chars.len());
    assert(before@ =~= text@.take(i as int));
    assert(behind@ =~= text@.skip(i + len));
    let mut new = string_of(before);
    new.append(replacement);
    push_chars(&mut new, behind);
    new
}

/// `text` with `replacement` in place of each match, and how many there were.
fn replace_all(text: &str, find: &str, replacement: &str, around: Option<&str>) -> (made: (
    String,
    u128,
))
    ensures
        made.0@ == all_replaced(text@, find@, replacement@, opt_str_view(around), 0),
        made.1 == replacements(text@, find@, opt_str_view(around), 0),
{
    let chars = chars_of(text);
    let find_chars = chars_of(find);
    let replacement_chars = chars_of(replacement);
    let further: usize = lines_further(&find_chars);
    let all = lines_of(&chars);
    let ghost near = opt_str_view(around);
    let mut out: Vec<char> = Vec::new();
    let mut n: u128 = 0;
    let mut line: usize = 0;
    let mut i: usize = 0;
    assert(text@.take(0) =~= Seq::empty());
    assert(Seq::<char>::empty() + all_replaced(text@, find@, replacement@, near, 0)
        =~= all_replaced(text@, find@, replacement@, near, 0));
    loop
        invariant
            i <= chars@.len(),
            chars@ == text@,
            find_chars@ == find@,
            replacement_chars@ == replacement@,
            further == further_lines(find@),
            texts(all@) == lines(text@),
            near == opt_str_view(around),
            line == line_at(text@, i as int),
            line <= i,
            n <= i,
            all_replaced(text@, find@, replacement@, near, 0) == out@ + all_replaced(
                text@,
                find@,
                replacement@,
                near,
                i as int,
            ),
            replacements(text@, find@, near, 0) == n + replacements(
                text@,
                find@,
                near,
                i as int,
            ),
        decreases chars@.len() - i,
    {
        let ghost before = out@;
        let ghost rest = all_replaced(text@, find@, replacement@, near, i as int);
        let mut here = occurs_here(&chars, &find_chars, i);
        if here {
            proof {
                lemma_lines_of_match(text@, find@, i as int);
            }
            assert(line + further <= chars.len());
            let (from, to) = window(&all, line, line + further);
            here = admits(&all, from, to, around);
        }
        assert(here == is_match(text@, find@, near, i as int));
        let mut next: usize = i;
        if here {
            push_all(&mut out, &replacement_chars);
            n += 1;
            next = i + find_chars.len();
        }
        if next == i {
            if i == chars.len() {
                proof {
                    assert(replacements(text@, find@, near, i + 1) == 0);
                    assert(out@ =~= before + rest);
                }
                return (string_of(&out), n);
            }
            out.push(chars[i]);
            next = i + 1;
        }
        proof {
            let piece = text@.subrange(i as int, next as int);
            assert(text@.take(next as int) =~= text@.take(i as int) + piece);
            lemma_newlines_of_parts(text@.take(i as int), piece);
            assert(out@ + all_replaced(text@, find@, replacement@, near, next as int) =~= before
                + rest);
        }
        line += count_newlines(slice_subrange(&chars, i, next));
        i = next;
    }
}

/// Edits `full_text` by content, as `input` tells.
pub fn run_find_replace(
    full_text: &str,
    find: &str,
    replace: &str,
    input: &ReplaceLinesInput,
) -> (edit: Edit)
    ensures
        edit@ == find_replace(
            full_text@,
            find@,
            replace@,
            input.all,
            opt_view(input.around),
            input.occurrence,
            input.path@,
        ),
{
    let around: Option<&str> = match &input.around {
        Some(around) => Some(around.as_str()),
        None => None,
    };
    let path = input.path.as_str();
    let matches = find_matches(full_text, find, around);
    let ghost views = match_views(matches@);
    proof {
        assert(opt_str_view(around) == opt_view(input.around));
        matches_are_the_occurrences(full_text@, find@, opt_view(input.around));
    }
    if matches.len() == 0 {
        return refuse(no_match_text(find, around, path));
    }
    if input.all {
        let (replaced, n) = replace_all(full_text, find, replace, around);
        let response = all_text(n, find, path, full_text, replaced.as_str());
        return Edit { new_text: Some(replaced), save: false, response: Ok(response) };
    }
    if matches.len() == 1 || input.occurrence.is_some() {
        let mut index: usize = 0;
        match input.occurrence {
            Some(n) => {
                if n > 0 {
                    if (n - 1) as usize >= matches.len() {
                        return refuse(out_of_range_text(n, matches.len()));
                    }
                    index = (n - 1) as usize;
                }
            },
            None => {},
        }
        let m = &matches[index];
        assert(m@ == views[index as int]);
        let new = splice(full_text, m.start, find.unicode_len(), replace);
        let response = occurrence_text(
            index + 1,
            matches.len(),
            find,
            m.line,
            path,
            full_text,
            new.as_str(),
        );
        return Edit { new_text: Some(new), save: false, response: Ok(response) };
    }
    refuse(choose_text(&matches, find, path))
}

/// How an input wants its file edited.
#[derive(Clone, Copy, Debug, PartialEq, Eq, Structural)]
pub enum EditMode {
    /// By content.
    FindReplace,
    /// By line numbers.
    Lines { start_line: u32, end_line: u32 },
}

/// How `input` wants its file edited, or what it is missing. A text to find is
/// never left aside: where there is one, there must be one to put in its place.
pub open spec fn mode_of(input: ReplaceLinesInput) -> Result<EditMode, Seq<char>> {
    if input.find is Some && input.replace is Some {
        Ok(EditMode::FindReplace)
    } else if input.find is Some || input.start_line is None {
        Err("Either 'find' + 'replace' or 'start_line' + 'new_text' must be provided"@)
    } else if input.new_text is None {
        Err("'new_text' must be provided when using line mode"@)
    } else {
        let start_line = input.start_line->0;
        Ok(
            EditMode::Lines {
                start_line,
                end_line: match input.end_line {
                    Some(end_line) => end_line,
                    None => start_line,
                },
            },
        )
    }
}

/// How `input` wants its file edited.
pub fn edit_mode(input: &ReplaceLinesInput) -> (mode: Result<EditMode, String>)
    ensures
        match mode {
            Ok(mode) => mode_of(*input) == Ok::<_, Seq<char>>(mode),
            Err(missing) => mode_of(*input) == Err::<EditMode, _>(missing@),
        },
{
    if input.find.is_some() && input.replace.is_some() {
        return Ok(EditMode::FindReplace);
    }
    if input.find.is_some() {
        return Err(
            "Either 'find' + 'replace' or 'start_line' + 'new_text' must be provided".to_owned(),
        );
    }
    match input.start_line {
        Some(start_line) => {
            if input.new_text.is_none() {
                return Err("'new_text' must be provided when using line mode".to_owned());
            }
            let end_line: u32 = match input.end_line {
                Some(end_line) => end_line,
                None => start_line,
            };
            Ok(EditMode::Lines { start_line, end_line })
        },
        None => Err(
            "Either 'find' + 'replace' or 'start_line' + 'new_text' must be provided".to_owned(),
        ),
    }
}

/// The edit of `text` that `input` wants.
pub open spec fn edit_of(input: ReplaceLinesInput, text: Seq<char>) -> EditView {
    match mode_of(input) {
        Ok(EditMode::FindReplace) => find_replace(
            text,
            input.find->0@,
            input.replace->0@,
            input.all,
            opt_view(input.around),
            input.occurrence,
            input.path@,
        ),
        Ok(EditMode::Lines { start_line, end_line }) => line_edit(
            text,
            start_line,
            end_line,
            input.new_text->0@,
            input.path@,
        ),
        Err(missing) => refused(missing),
    }
}

/// `find` as a title shows it: without white space at its ends, and cut where it
/// is long.
pub open spec fn shortened(find: Seq<char>) -> Seq<char> {
    let bytes = encode_utf8(trim(find));
    if bytes.len() > 30 {
        decode_utf8(bytes.subrange(0, 28)) + "\u{2026}"@
    } else {
        trim(find)
    }
}

/// Whether `find` can be cut for a title: not within a character.
pub open spec fn can_be_shortened(find: Seq<char>) -> bool {
    let bytes = encode_utf8(trim(find));
    bytes.len() > 30 ==> is_char_boundary(bytes, 28)
}

/// The title of the edit that `input` asks for, of the file called `file`.
pub open spec fn title_of(input: ReplaceLinesInput, file: Seq<char>) -> Seq<char> {
    if input.find is Some && input.replace is Some {
        file + ": \""@ + shortened(input.find->0@) + "\" \u{2192} \""@ + input.replace->0@ + "\""@
    } else if input.start_line is Some && input.new_text is Some {
        file + ":"@ + decimal(input.start_line->0 as nat) + "-"@ + decimal(
            (match input.end_line {
                Some(end_line) => end_line,
                None => input.start_line->0,
            }) as nat,
        )
    } else {
        "Edit file"@
    }
}

/// `find` as a title shows it.
fn shorten(find: &str) -> (short: String)
    requires
        can_be_shortened(find@),
    ensures
        short@ == shortened(find@),
{
    let chars = chars_of(find);
    let trimmed = string_of(trim_chars(&chars));
    let f = trimmed.as_str();
    if f.as_bytes().len() > 30 {
        let (head, _) = f.split_at(28);
        proof {
            encode_utf8_decode_utf8(head@);
        }
        let mut short = head.to_owned();
        short.append("\u{2026}");
        short
    } else {
        trimmed
    }
}

/// The title of the edit that `input` asks for, of the file called `file`.
pub fn edit_title(input: &ReplaceLinesInput, file: &str) -> (title: String)
    requires
        input.find is Some && input.replace is Some ==> can_be_shortened(input.find->0@),
    ensures
        title@ == title_of(*input, file@),
{
    if let Some(find) = &input.find {
        if let Some(replace) = &input.replace {
            let mut title = file.to_owned();
            title.append(": \"");
            title.append(shorten(find.as_str()).as_str());
            title.append("\" \u{2192} \"");
            title.append(replace.as_str());
            title.append("\"");
            return title;
        }
    }
    if let Some(start_line) = input.start_line {
        if input.new_text.is_some() {
            let end_line: u32 = match input.end_line {
                Some(end_line) => end_line,
                None => start_line,
            };
            let mut title = file.to_owned();
            title.append(":");
            push_decimal(&mut title, start_line as u128);
            title.append("-");
            push_decimal(&mut title, end_line as u128);
            return title;
        }
    }
    "Edit file".to_owned()
}

/// Whether every machine takes `path` apart alike: its only separators are
/// slashes, it begins with none that stand for a machine, and a name ends it.
pub open spec fn is_plain_path(path: Seq<char>) -> bool {
    &&& !path.contains('\\')
    &&& !path.contains(':')
    &&& !starts_with(path, "//"@)
    &&& name_part(path).len() > 0
    &&& name_part(path) != "."@
}

/// What a file is called in a title: its name, or its whole path where that ends
/// in the parent directory.
pub open spec fn file_label(path: Seq<char>) -> Seq<char> {
    if name_part(path) == ".."@ {
        path
    } else {
        name_part(path)
    }
}

/// Whether `name` may be the name of the file at `path` on some machine. It is
/// not empty and stands in the path. Where no backslash is in the path, which
/// separates components on some machines, and what follows the last slash is
/// neither empty nor a dot, the name is how the path ends behind that slash.
pub open spec fn may_be_name(path: Seq<char>, name: Seq<char>) -> bool {
    &&& name.len() > 0
    &&& contains(path, name)
    &&& !path.contains('\\') && name_part(path).len() > 0 && name_part(path) != "."@
        ==> ends_with(name_part(path), name)
}

/// `std::path::Path::file_name`: the last component of a path, if that is a
/// name; `..` is none. What separates components, and what stands for a drive or
/// a machine, depends on the machine: of a path that is not plain it is said only
/// what holds everywhere.
#[verifier::external_body]
fn file_name(path: &str) -> (name: Option<String>)
    ensures
        is_plain_path(path@) ==> name is Some == (name_part(path@) != ".."@),
        is_plain_path(path@) && name is Some ==> name->0@ == name_part(path@),
        name is Some ==> may_be_name(path@, name->0@),
{
    std::path::Path::new(path).file_name().map(|name| name.to_string_lossy().into_owned())
}

/// The tool that edits files of `project`.
pub struct ReplaceLinesTool<P> {
    pub project: P,
}

impl<P> ReplaceLinesTool<P> {
    /// The tool for `project`.
    pub fn new(project: P) -> (tool: Self)
        ensures
            tool.project == project,
    {
        ReplaceLinesTool { project }
    }

    /// The title to show for a call before it runs. The file is called by its
    /// name, or by its whole path where that has none.
    pub fn initial_title(&self, input: Result<ReplaceLinesInput, serde_json::Value>) -> (title:
        String)
        requires
            input matches Ok(i) ==> (i.find is Some && i.replace is Some ==> can_be_shortened(
                i.find->0@,
            )),
        ensures
            match input {
                Ok(i) => {
                    &&& is_plain_path(i.path@) ==> title@ == title_of(i, file_label(i.path@))
                    &&& title@ == title_of(i, i.path@) || exists|name: Seq<char>| #[trigger]
                        may_be_name(i.path@, name) && title@ == title_of(i, name)
                },
                Err(_) => title@ == "Edit file"@,
            },
    {
        match input {
            Ok(i) => {
                match file_name(i.path.as_str()) {
                    Some(name) => edit_title(&i, name.as_str()),
                    None => edit_title(&i, i.path.as_str()),
                }
            },
            Err(_) => "Edit file".to_owned(),
        }
    }

    /// Edits `text`, what the file holds, as `input` tells.
    pub fn run(&self, input: &ReplaceLinesInput, text: &str) -> (edit: Edit)
        requires
            mode_of(*input) matches Ok(EditMode::Lines { .. }) ==> rows(text@).len() <= u32::MAX,
        ensures
            edit@ == edit_of(*input, text@),
    {
        match (&input.find, &input.replace) {
            (Some(find), Some(replace)) => {
                return run_find_replace(text, find.as_str(), replace.as_str(), input);
            },
            _ => {},
        }
        match (edit_mode(input), &input.new_text) {
            (Ok(EditMode::Lines { start_line, end_line }), Some(new_text)) => run_line_mode(
                text,
                start_line,
                end_line,
                new_text.as_str(),
                input.path.as_str(),
            ),
            (Err(missing), _) => refuse(missing),
            _ => unreached(),
        }
    }
}

/// A text has one row more than it has line feeds.
pub proof fn line_feeds_part_the_rows(s: Seq<char>)
    ensures
        rows(s).len() == newlines(s) + 1,
    decreases s.len(),
{
    let end = next_newline(s, 0);
    lemma_next_newline(s, 0);
    if end < s.len() {
        let rest = s.skip(end + 1);
        let line = s.take(end);
        lemma_one_row_has_no_newlines(line);
        assert(s =~= line.push('\n') + rest);
        assert(line.push('\n').drop_last() =~= line);
        lemma_newlines_of_parts(line.push('\n'), rest);
        line_feeds_part_the_rows(rest);
    } else {
        lemma_one_row_has_no_newlines(s);
    }
}

proof fn lemma_one_row_has_no_newlines(s: Seq<char>)
    requires
        forall|i: int| 0 <= i < s.len() ==> s[i] != '\n',
    ensures
        newlines(s) == 0,
    decreases s.len(),
{
    if s.len() > 0 {
        lemma_one_row_has_no_newlines(s.drop_last());
    }
}

/// There is a match exactly where the text to find stands, character for
/// character, and, if there is a text that narrows, where that stands in a line of
/// the match or in the line before it or behind it. The first line of a match is
/// the one that it begins in, its last the one that its last character is in.
pub proof fn a_match_stands_where_it_is_found(
    text: Seq<char>,
    find: Seq<char>,
    around: Option<Seq<char>>,
    i: int,
)
    ensures
        ({
            let first = rows(text.take(i)).len() - 1;
            let last = if find.len() > 0 {
                first + rows(find.drop_last()).len() - 1
            } else {
                first
            };
            is_match(text, find, around, i) <==> {
                &&& 0 <= i <= i + find.len() <= text.len()
                &&& text.subrange(i, i + find.len()) == find
                &&& around is Some ==> exists|j: int|
                    0 <= j < lines(text).len() && first - 1 <= j <= last + 1 && contains(
                        #[trigger] lines(text)[j],
                        around->0,
                    )
            }
        }),
{
    line_feeds_part_the_rows(text.take(i));
    if find.len() > 0 {
        line_feeds_part_the_rows(find.drop_last());
    }
    let first = line_at(text, i);
    let last = first + further_lines(find);
    if around is Some {
        let near = around->0;
        if is_near(text, find, near, i) {
            let j = choose|j: int|
                window_start(lines(text), first) <= j < window_end(lines(text), last) && contains(
                    #[trigger] lines(text)[j],
                    near,
                );
            assert(contains(lines(text)[j], near));
        }
        if exists|j: int|
            0 <= j < lines(text).len() && first - 1 <= j <= last + 1 && contains(
                #[trigger] lines(text)[j],
                near,
            ) {
            let j = choose|j: int|
                0 <= j < lines(text).len() && first - 1 <= j <= last + 1 && contains(
                    #[trigger] lines(text)[j],
                    near,
                );
            assert(contains(lines(text)[j], near));
            assert(is_near(text, find, near, i));
        }
    }
}

/// A match is told with the number of the line that it begins in, counted from 1,
/// and with its lines, the line before them and the line behind them, as far as
/// there are such.
pub proof fn a_match_is_told_with_its_lines(
    text: Seq<char>,
    find: Seq<char>,
    around: Option<Seq<char>>,
    k: int,
)
    requires
        0 <= k < matches_in(text, find, around).len(),
    ensures
        ({
            let m = matches_in(text, find, around)[k];
            let first = rows(text.take(m.start as int)).len() - 1;
            let last = if find.len() > 0 {
                first + rows(find.drop_last()).len() - 1
            } else {
                first
            };
            let all = lines(text);
            let from = if first == 0 {
                0
            } else if first - 1 < all.len() {
                first - 1
            } else {
                all.len() as int
            };
            let to = if last + 2 < all.len() {
                last + 2
            } else {
                all.len() as int
            };
            &&& m.index == k + 1
            &&& m.line == first + 1
            &&& m.context == joined(all.subrange(from, to), "\n"@)
        }),
{
    matches_are_the_occurrences(text, find, around);
    let m = matches_in(text, find, around)[k];
    line_feeds_part_the_rows(text.take(m.start as int));
    if find.len() > 0 {
        line_feeds_part_the_rows(find.drop_last());
    }
    lemma_matching_places(text, find, around, text.len() as int + 1);
    let places = matching_places(text, find, around, text.len() as int + 1);
    assert(m == match_at(text, find, k + 1, places[k]));
}

/// The occurrence that is asked for, counted from 1 among the matches in their
/// order, is the one that is replaced, and no other: what is before it and behind
/// it stays. The answer tells its number and its line. An occurrence beyond the
/// last is refused.
pub proof fn the_occurrence_asked_for_is_replaced(
    text: Seq<char>,
    find: Seq<char>,
    replacement: Seq<char>,
    around: Option<Seq<char>>,
    n: u32,
    path: Seq<char>,
)
    requires
        n >= 1,
    ensures
        ({
            let matches = matches_in(text, find, around);
            let edit = find_replace(text, find, replacement, false, around, Some(n), path);
            let m = matches[n - 1];
            let start = m.start as int;
            let new = text.take(start) + replacement + text.skip(start + find.len());
            &&& n <= matches.len() ==> {
                &&& edit.new_text == Some(new)
                &&& !edit.save
                &&& edit.response == Ok::<Seq<char>, Seq<char>>(
                    "Replaced occurrence "@ + decimal(n as nat) + "/"@ + decimal(matches.len())
                        + " of '"@ + find + "' at line "@ + decimal(m.line) + " in "@ + path
                        + "\n\nDiff:\n"@ + diff(text, new),
                )
            }
            &&& n > matches.len() > 0 ==> {
                &&& edit.new_text is None
                &&& !edit.save
                &&& edit.response == Err::<Seq<char>, Seq<char>>(
                    "Occurrence "@ + decimal(n as nat) + " is out of range ("@ + decimal(
                        matches.len(),
                    ) + (if matches.len() == 1 {
                        " match)"@
                    } else {
                        " matches)"@
                    }),
                )
            }
        }),
{
}

/// The occurrence 0 stands for the first; a match that is the only one needs no
/// number.
pub proof fn the_first_occurrence_needs_no_number(
    text: Seq<char>,
    find: Seq<char>,
    replacement: Seq<char>,
    around: Option<Seq<char>>,
    path: Seq<char>,
)
    ensures
        ({
            let first = find_replace(text, find, replacement, false, around, Some(1), path);
            &&& find_replace(text, find, replacement, false, around, Some(0), path) == first
            &&& matches_in(text, find, around).len() == 1 ==> find_replace(
                text,
                find,
                replacement,
                false,
                around,
                None,
                path,
            ) == first
        }),
{
}

/// Where nothing matches, or several do and none is chosen, nothing is written,
/// and the answer says so: with the text that was looked for, and with each of the
/// matches.
pub proof fn an_edit_without_a_match_or_a_choice_is_refused(
    text: Seq<char>,
    find: Seq<char>,
    replacement: Seq<char>,
    all: bool,
    around: Option<Seq<char>>,
    occurrence: Option<u32>,
    path: Seq<char>,
)
    ensures
        ({
            let edit = find_replace(text, find, replacement, all, around, occurrence, path);
            let matches = matches_in(text, find, around);
            &&& matches.len() == 0 ==> {
                &&& edit.new_text is None
                &&& !edit.save
                &&& edit.response == Err::<Seq<char>, Seq<char>>(
                    match around {
                        Some(near) => "No match found for '"@ + find + "'"@ + (" with around '"@
                            + near + "'"@) + " in "@ + path,
                        None => "No match found for '"@ + find + "'"@ + " in "@ + path,
                    },
                )
            }
            &&& matches.len() > 1 && !all && occurrence is None ==> {
                &&& edit.new_text is None
                &&& !edit.save
                &&& edit.response == Err::<Seq<char>, Seq<char>>(
                    "Found "@ + decimal(matches.len()) + " matches for '"@ + find + "' in "@ + path
                        + ".\nOptions: `all: true` (replace all), `occurrence` (pick one), or `around` (narrow scope).\n\nMatches:\n"@
                        + listing(matches),
                )
            }
        }),
{
    assert("No match found for '"@ + find + "'"@ + Seq::<char>::empty()
        =~= "No match found for '"@ + find + "'"@);
}

/// The matches are listed one behind the other, each with its number, its line and
/// its lines, which are indented.
pub proof fn matches_are_listed_in_order(
    m: MatchView,
    first: Seq<MatchView>,
    second: Seq<MatchView>,
)
    ensures
        listing(Seq::empty()) == Seq::<char>::empty(),
        listing(seq![m]) == "  ["@ + decimal(m.index) + "] line "@ + decimal(m.line)
            + ":\n        "@ + replaced(m.context, "\n"@, "\n        "@) + "\n\n"@,
        listing(first + second) == listing(first) + listing(second),
    decreases second.len(),
{
    let none = Seq::<MatchView>::empty();
    assert(seq![m].drop_last() =~= none);
    assert(listing(none) =~= Seq::empty());
    assert(Seq::<char>::empty() + listed(m) =~= listed(m));
    if second.len() == 0 {
        assert(first + second =~= first);
        assert(listing(first) + listing(second) =~= listing(first));
    } else {
        assert((first + second).drop_last() =~= first + second.drop_last());
        matches_are_listed_in_order(m, first, second.drop_last());
        assert(listing(first + second) =~= listing(first) + listing(second));
    }
}

/// An edit of all matches writes the text with all of them replaced, and tells how
/// many replacements were made.
pub proof fn an_edit_of_all_tells_how_many(
    text: Seq<char>,
    find: Seq<char>,
    replacement: Seq<char>,
    around: Option<Seq<char>>,
    occurrence: Option<u32>,
    path: Seq<char>,
)
    requires
        matches_in(text, find, around).len() > 0,
    ensures
        ({
            let edit = find_replace(text, find, replacement, true, around, occurrence, path);
            let new = all_replaced(text, find, replacement, around, 0);
            let n = replacements(text, find, around, 0);
            &&& edit.new_text == Some(new)
            &&& !edit.save
            &&& edit.response == Ok::<Seq<char>, Seq<char>>(
                "Replaced "@ + decimal(n) + (if n == 1 {
                    " occurrence of '"@
                } else {
                    " occurrences of '"@
                }) + find + "' in "@ + path + "\n\nDiff:\n"@ + diff(text, new),
            )
        }),
{
}

/// All matches are replaced from the left. What is before the next match stays, the
/// replacement takes the place of the match, and the search goes on behind the
/// match, so that no two replacements overlap; where no match follows, the rest
/// stays.
pub proof fn all_matches_are_replaced_from_the_left(
    text: Seq<char>,
    find: Seq<char>,
    replacement: Seq<char>,
    around: Option<Seq<char>>,
    from: int,
    i: int,
)
    requires
        0 <= from <= i <= text.len(),
        forall|k: int| from <= k < i ==> !#[trigger] is_match(text, find, around, k),
    ensures
        find.len() > 0 && is_match(text, find, around, i) ==> {
            &&& all_replaced(text, find, replacement, around, from) == text.subrange(from, i)
                + replacement + all_replaced(text, find, replacement, around, i + find.len())
            &&& replacements(text, find, around, from) == 1 + replacements(
                text,
                find,
                around,
                i + find.len(),
            )
        },
        find.len() == 0 && is_match(text, find, around, i) && i < text.len() ==> {
            &&& all_replaced(text, find, replacement, around, from) == text.subrange(from, i)
                + replacement + seq![text[i]] + all_replaced(
                text,
                find,
                replacement,
                around,
                i + 1,
            )
            &&& replacements(text, find, around, from) == 1 + replacements(
                text,
                find,
                around,
                i + 1,
            )
        },
        find.len() == 0 && is_match(text, find, around, i) && i == text.len() ==> {
            &&& all_replaced(text, find, replacement, around, from) == text.subrange(from, i)
                + replacement
            &&& replacements(text, find, around, from) == 1
        },
        i == text.len() && !is_match(text, find, around, i) ==> {
            &&& all_replaced(text, find, replacement, around, from) == text.skip(from)
            &&& replacements(text, find, around, from) == 0
        },
    decreases i - from,
{
    if from < i {
        assert(!is_match(text, find, around, from));
        all_matches_are_replaced_from_the_left(text, find, replacement, around, from + 1, i);
        assert(text.subrange(from, i) =~= seq![text[from]] + text.subrange(from + 1, i));
        let whole = all_replaced(text, find, replacement, around, from);
        if is_match(text, find, around, i) {
            if find.len() > 0 {
                assert(whole =~= text.subrange(from, i) + replacement + all_replaced(
                    text,
                    find,
                    replacement,
                    around,
                    i + find.len(),
                ));
            } else if i < text.len() {
                assert(whole =~= text.subrange(from, i) + replacement + seq![text[i]]
                    + all_replaced(text, find, replacement, around, i + 1));
            } else {
                assert(whole =~= text.subrange(from, i) + replacement);
            }
        } else if i == text.len() {
            assert(whole =~= text.skip(from));
        }
    } else {
        assert(text.subrange(from, i) =~= Seq::empty());
        assert(Seq::<char>::empty() + replacement =~= replacement);
        assert(replacements(text, find, around, text.len() as int + 1) == 0);
        if i == text.len() {
            assert(text.skip(from) =~= Seq::empty());
        }
    }
}

/// A text to find and one to put in its place ask for an edit by content, with all
/// that narrows it; without a text to find, a line and a new text ask for an edit
/// by line numbers, of that line alone where no last one is told. Anything else is
/// refused, and the answer says what is missing.
pub proof fn an_input_asks_for_one_kind_of_edit(input: ReplaceLinesInput, text: Seq<char>)
    ensures
        ({
            let edit = edit_of(input, text);
            let missing = if input.find is None && input.start_line is Some {
                "'new_text' must be provided when using line mode"@
            } else {
                "Either 'find' + 'replace' or 'start_line' + 'new_text' must be provided"@
            };
            if input.find is Some && input.replace is Some {
                &&& mode_of(input) == Ok::<_, Seq<char>>(EditMode::FindReplace)
                &&& edit == find_replace(
                    text,
                    input.find->0@,
                    input.replace->0@,
                    input.all,
                    match input.around {
                        Some(around) => Some(around@),
                        None => None,
                    },
                    input.occurrence,
                    input.path@,
                )
            } else if input.find is None && input.start_line is Some && input.new_text is Some {
                let start_line = input.start_line->0;
                let end_line = if input.end_line is Some {
                    input.end_line->0
                } else {
                    start_line
                };
                &&& mode_of(input) == Ok::<_, Seq<char>>(EditMode::Lines { start_line, end_line })
                &&& edit == line_edit(text, start_line, end_line, input.new_text->0@, input.path@)
            } else {
                &&& mode_of(input) == Err::<EditMode, _>(missing)
                &&& edit.new_text is None
                &&& !edit.save
                &&& edit.response == Err::<Seq<char>, _>(missing)
            }
        }),
{
}

/// A title names the file and what is done to it: the text to find and the one to
/// put in its place, or the lines.
pub proof fn a_title_tells_file_and_edit(input: ReplaceLinesInput, file: Seq<char>)
    ensures
        ({
            let title = title_of(input, file);
            if input.find is Some && input.replace is Some {
                title == file + ": \""@ + shortened(input.find->0@) + "\" \u{2192} \""@
                    + input.replace->0@ + "\""@
            } else if input.start_line is Some && input.new_text is Some {
                let start = decimal(input.start_line->0 as nat);
                let end = if input.end_line is Some {
                    decimal(input.end_line->0 as nat)
                } else {
                    start
                };
                title == file + ":"@ + start + "-"@ + end
            } else {
                title == "Edit file"@
            }
        }),
{
}

/// A title shows the text to find without the white space around it: all of that
/// where it has at most thirty bytes, else what its first twenty-eight bytes write,
/// and an ellipsis.
pub proof fn a_title_cuts_a_long_text(find: Seq<char>, head: Seq<char>, rest: Seq<char>)
    requires
        trim(find) == head + rest,
    ensures
        encode_utf8(trim(find)).len() <= 30 ==> shortened(find) == trim(find),
        encode_utf8(trim(find)).len() > 30 && encode_utf8(head).len() == 28 ==> shortened(find)
            == head + "\u{2026}"@,
{
    lemma_encoded_in_parts(head, rest);
    let bytes = encode_utf8(trim(find));
    if bytes.len() > 30 && encode_utf8(head).len() == 28 {
        assert(bytes.subrange(0, 28) =~= encode_utf8(head));
        encode_utf8_decode_utf8(head);
    }
}

proof fn lemma_encoded_in_parts(a: Seq<char>, b: Seq<char>)
    ensures
        encode_utf8(a + b) == encode_utf8(a) + encode_utf8(b),
    decreases a.len(),
{
    if a.len() == 0 {
        assert(a + b =~= b);
        assert(encode_utf8(a) + encode_utf8(b) =~= encode_utf8(b));
    } else {
        assert((a + b).drop_first() =~= a.drop_first() + b);
        lemma_encoded_in_parts(a.drop_first(), b);
        assert(encode_utf8(a + b) =~= encode_utf8(a) + encode_utf8(b));
    }
}

/// In a title a file is called by its name; one whose path ends in the parent
/// directory by its path.
pub proof fn a_title_calls_a_file_by_its_name(path: Seq<char>)
    ensures
        name_part(path) != ".."@ ==> file_label(path) == name_part(path),
        name_part(path) == ".."@ ==> file_label(path) == path,
{
}

/// What is told of values is what they hold, each in its place.
pub proof fn views_hold_what_there_is(
    text: String,
    slice: &str,
    matches: Seq<MatchInfo>,
    i: int,
    edit: Edit,
)
    ensures
        opt_view(Some(text)) == Some(text@),
        opt_view(None) is None,
        opt_str_view(Some(slice)) == Some(slice@),
        opt_str_view(None) is None,
        match_views(matches).len() == matches.len(),
        0 <= i < matches.len() ==> {
            let m = match_views(matches)[i];
            &&& m.index == matches[i].index
            &&& m.line == matches[i].line
            &&& m.context == matches[i].context@
            &&& m.start == matches[i].start
        },
        edit@.new_text == opt_view(edit.new_text),
        edit@.save == edit.save,
        edit.response is Ok ==> edit@.response == Ok::<_, Seq<char>>(edit.response->Ok_0@),
        edit.response is Err ==> edit@.response == Err::<Seq<char>, _>(edit.response->Err_0@),
{
}

/// A path of names with slashes between them is plain, and the file is called by the
/// last of them.
pub proof fn a_plain_path_ends_in_the_name(dir: Seq<char>, name: Seq<char>)
    requires
        name.len() > 0,
        !name.contains('/'),
        name != "."@,
    ensures
        name_part(dir.push('/') + name) == name,
        name_part(name) == name,
        ({
            let path = dir.push('/') + name;
            !path.contains('\\') && !path.contains(':') && !starts_with(path, "//"@)
                ==> is_plain_path(path) && (name != ".."@ ==> file_label(path) == name) && (name
                == ".."@ ==> file_label(path) == path)
        }),
        !name.contains('\\') && !name.contains(':') ==> is_plain_path(name),
        file_label(name) == name,
{
    lemma_name_part_is(dir.push('/'), name);
    lemma_name_part_is(Seq::empty(), name);
    assert(Seq::<char>::empty() + name =~= name);
    if starts_with(name, "//"@) {
        reveal_strlit("//");
        assert(name.subrange(0, 2)[0] == name[0]);
        assert(name.contains(name[0]));
    }
}

proof fn lemma_name_part_is(before: Seq<char>, name: Seq<char>)
    requires
        before.len() > 0 ==> before.last() == '/',
        !name.contains('/'),
    ensures
        name_part(before + name) == name,
    decreases name.len(),
{
    if name.len() == 0 {
        assert(before + name =~= before);
        assert(name =~= Seq::empty());
    } else {
        assert(name.contains(name.last()));
        let shorter = name.drop_last();
        assert forall|i: int| 0 <= i < shorter.len() implies shorter[i] != '/' by {
            assert(name[i] == shorter[i]);
            assert(name.contains(name[i]));
        }
        assert((before + name).drop_last() =~= before + shorter);
        lemma_name_part_is(before, shorter);
        assert(shorter.push(name.last()) =~= name);
    }
}

} // verus!
