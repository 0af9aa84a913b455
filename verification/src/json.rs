//! JSON as the library sees it. A value is carried as `serde_json` made it;
//! what the contracts say of it they say of its compact text.
use vstd::prelude::*;

use crate::replace_lines_tool::opt_view;
use crate::search::starts_with;

verus! {

#[verifier::external_type_specification]
#[verifier::external_body]
pub struct ExJsonValue(serde_json::Value);

#[verifier::external_type_specification]
#[verifier::external_body]
pub struct ExJsonError(serde_json::Error);

/// What a JSON value holds, as the compact text that `serde_json::to_string`
/// writes for it.
pub uninterp spec fn json_text(value: serde_json::Value) -> Seq<char>;

/// What an error of `serde_json` says of itself.
pub uninterp spec fn json_error_text(error: serde_json::Error) -> Seq<char>;

/// What `serde_json::Value::from_str` makes of a text: the compact text of the
/// value that it read, or the message of its error.
pub uninterp spec fn parsed_json(text: Seq<char>) -> Result<Seq<char>, Seq<char>>;

/// The texts in a result of reading JSON.
pub open spec fn outcome_text(result: Result<serde_json::Value, serde_json::Error>) -> Result<
    Seq<char>,
    Seq<char>,
> {
    match result {
        Ok(value) => Ok(json_text(value)),
        Err(error) => Err(json_error_text(error)),
    }
}

/// The unsigned integer that stands under `key` in the JSON value with the
/// compact text `json`, as `Value::as_u64` reads it off the indexed value.
pub uninterp spec fn json_u64_member(json: Seq<char>, key: Seq<char>) -> Option<u64>;

/// Where a JSON text has come to: whether inside a string, and there, how many
/// characters of an escape sequence have come that is not complete.
pub struct StringScan {
    pub inside: bool,
    pub escape: int,
}

/// Whether `c` is a hexadecimal digit.
pub open spec fn is_hex_digit(c: char) -> bool {
    '0' <= c <= '9' || 'a' <= c <= 'f' || 'A' <= c <= 'F'
}

/// Where a JSON text has come to when `c` follows. Behind a backslash any
/// character completes the escape sequence, but `u`, which four hexadecimal
/// digits follow.
pub open spec fn scan_char(before: StringScan, c: char) -> StringScan {
    if !before.inside {
        StringScan { inside: c == '"', escape: 0 }
    } else if before.escape == 1 {
        StringScan {
            inside: true,
            escape: if c == 'u' {
                2
            } else {
                0
            },
        }
    } else if before.escape > 1 && is_hex_digit(c) {
        StringScan {
            inside: true,
            escape: if before.escape == 5 {
                0
            } else {
                before.escape + 1
            },
        }
    } else {
        StringScan {
            inside: c != '"',
            escape: if c == '\\' {
                1
            } else {
                0
            },
        }
    }
}

/// Where the JSON text `text` has come to.
pub open spec fn scanned(text: Seq<char>) -> StringScan
    decreases text.len(),
{
    if text.len() == 0 {
        StringScan { inside: false, escape: 0 }
    } else {
        scan_char(scanned(text.drop_last()), text.last())
    }
}

/// `text` without an escape sequence at its end that is not complete.
pub open spec fn without_open_escape(text: Seq<char>) -> Seq<char> {
    text.take(text.len() - scanned(text).escape)
}

/// Whether no escape sequence in a string of `text` breaks off: each `\u` has its
/// four hexadecimal digits, as far as the text goes.
pub open spec fn escapes_are_whole(text: Seq<char>) -> bool {
    forall|i: int|
        0 <= i < text.len() && scanned(text.take(i)).escape > 1 ==> is_hex_digit(
            #[trigger] text[i],
        )
}

/// An escape sequence that is not complete has at most five characters, all of
/// them in the text, and stands in a string.
pub proof fn open_escapes_are_short(text: Seq<char>)
    ensures
        0 <= scanned(text).escape <= 5,
        scanned(text).escape <= text.len(),
        scanned(text).escape > 0 ==> scanned(text).inside,
    decreases text.len(),
{
    if text.len() > 0 {
        open_escapes_are_short(text.drop_last());
    }
}

/// As text arrives, what it is without an open escape sequence only grows.
pub proof fn closed_texts_grow(text: Seq<char>, more: Seq<char>)
    ensures
        without_open_escape(text).is_prefix_of(without_open_escape(text + more)),
{
    open_escapes_are_short(text);
    open_escapes_are_short(text + more);
    lemma_open_escape_began_before(text, more);
}

proof fn lemma_open_escape_began_before(text: Seq<char>, more: Seq<char>)
    ensures
        scanned(text + more).escape > more.len() ==> scanned(text + more).escape == scanned(
            text,
        ).escape + more.len(),
    decreases more.len(),
{
    if more.len() == 0 {
        assert(text + more =~= text);
    } else {
        assert((text + more).drop_last() =~= text + more.drop_last());
        lemma_open_escape_began_before(text, more.drop_last());
    }
}

/// Whether four hexadecimal digits stand in `s` at `i`.
pub open spec fn has_code(s: Seq<char>, i: int) -> bool {
    &&& i + 4 <= s.len()
    &&& is_hex_digit(s[i]) && is_hex_digit(s[i + 1])
    &&& is_hex_digit(s[i + 2]) && is_hex_digit(s[i + 3])
}

/// The number that the hexadecimal digit `c` stands for.
pub open spec fn hex_value(c: char) -> int {
    if '0' <= c <= '9' {
        c as int - '0' as int
    } else if 'a' <= c <= 'f' {
        c as int - 'a' as int + 10
    } else {
        c as int - 'A' as int + 10
    }
}

/// The number that the four hexadecimal digits at `i` write.
pub open spec fn code_at(s: Seq<char>, i: int) -> int {
    0x1000 * hex_value(s[i]) + 0x100 * hex_value(s[i + 1]) + 0x10 * hex_value(s[i + 2])
        + hex_value(s[i + 3])
}

/// Whether `code` is the first half of a surrogate pair.
pub open spec fn is_first_half(code: int) -> bool {
    0xd800 <= code <= 0xdbff
}

/// Whether `code` is the second half of a surrogate pair.
pub open spec fn is_second_half(code: int) -> bool {
    0xdc00 <= code <= 0xdfff
}

/// Where a JSON text has come to, in characters that its strings write: whether
/// inside a string, and there, how many characters have come of an escape
/// sequence, or of two that make a surrogate pair, that is not complete, and what
/// the digits of the last of them write so far.
pub struct UnitScan {
    pub inside: bool,
    pub open: int,
    pub code: int,
}

/// In a string, behind whole characters.
pub open spec fn in_string() -> UnitScan {
    UnitScan { inside: true, open: 0, code: 0 }
}

/// Where a JSON text has come to when `c` follows. The first half of a surrogate
/// pair, which has six characters, is complete only with the second, which has
/// as many.
pub open spec fn unit_step(before: UnitScan, c: char) -> UnitScan {
    if !before.inside {
        UnitScan { inside: c == '"', open: 0, code: 0 }
    } else if before.open == 1 || before.open == 7 {
        UnitScan {
            open: if c == 'u' {
                before.open + 1
            } else {
                0
            },
            ..in_string()
        }
    } else if before.open > 1 && before.open != 6 && is_hex_digit(c) {
        let code = 16 * before.code + hex_value(c);
        if before.open == 5 {
            UnitScan {
                open: if is_first_half(code) {
                    6
                } else {
                    0
                },
                ..in_string()
            }
        } else if before.open == 11 {
            in_string()
        } else {
            UnitScan { open: before.open + 1, code, ..in_string() }
        }
    } else if before.open == 6 && c == '\\' {
        UnitScan { open: 7, ..in_string() }
    } else {
        UnitScan {
            inside: c != '"',
            open: if c == '\\' {
                1
            } else {
                0
            },
            code: 0,
        }
    }
}

/// Where the JSON text `text` has come to.
pub open spec fn unit_scanned(text: Seq<char>) -> UnitScan
    decreases text.len(),
{
    if text.len() == 0 {
        UnitScan { inside: false, open: 0, code: 0 }
    } else {
        unit_step(unit_scanned(text.drop_last()), text.last())
    }
}

/// `text` without what stands at its end, in a string, and writes no whole
/// character: an escape sequence that is not complete, the first half of a
/// surrogate pair, or that and a part of the second.
pub open spec fn without_open_unit(text: Seq<char>) -> Seq<char> {
    text.take(text.len() - unit_scanned(text).open)
}

proof fn lemma_unit_push(text: Seq<char>, c: char)
    ensures
        unit_scanned(text.push(c)) == unit_step(unit_scanned(text), c),
{
    assert(text.push(c).drop_last() =~= text);
}

/// What is open at the end of a text has at most eleven characters, all of them in
/// the text, and stands in a string. An escape sequence that is not complete is
/// part of it.
pub proof fn open_units_are_short(text: Seq<char>)
    ensures
        0 <= unit_scanned(text).open <= 11,
        unit_scanned(text).open <= text.len(),
        unit_scanned(text).open > 0 ==> unit_scanned(text).inside,
        scanned(text).inside == unit_scanned(text).inside,
        scanned(text).escape == (if unit_scanned(text).open < 6 {
            unit_scanned(text).open
        } else {
            unit_scanned(text).open - 6
        }),
    decreases text.len(),
{
    if text.len() > 0 {
        open_units_are_short(text.drop_last());
    }
}

/// As text arrives, what it is without what is open at its end only grows.
pub proof fn closed_units_grow(text: Seq<char>, more: Seq<char>)
    ensures
        without_open_unit(text).is_prefix_of(without_open_unit(text + more)),
{
    open_units_are_short(text);
    open_units_are_short(text + more);
    lemma_open_unit_began_before(text, more);
}

proof fn lemma_open_unit_began_before(text: Seq<char>, more: Seq<char>)
    ensures
        unit_scanned(text + more).open > more.len() ==> unit_scanned(text + more).open
            == unit_scanned(text).open + more.len(),
    decreases more.len(),
{
    if more.len() == 0 {
        assert(text + more =~= text);
    } else {
        assert((text + more).drop_last() =~= text + more.drop_last());
        open_units_are_short(text + more.drop_last());
        lemma_open_unit_began_before(text, more.drop_last());
    }
}

/// What is open begins with a backslash in a string, which completes nothing.
proof fn lemma_open_unit_begins(text: Seq<char>)
    requires
        unit_scanned(text).open > 0,
    ensures
        ({
            let start = text.len() - unit_scanned(text).open;
            let before = unit_scanned(text.take(start));
            &&& 0 <= start < text.len()
            &&& text[start] == '\\'
            &&& before.inside
            &&& before.open != 1 && before.open != 6 && before.open != 7
        }),
    decreases text.len(),
{
    open_units_are_short(text);
    let before = text.drop_last();
    open_units_are_short(before);
    if unit_scanned(text).open == 1 {
        assert(text.take(text.len() - 1) =~= before);
    } else {
        lemma_open_unit_begins(before);
        let start = before.len() - unit_scanned(before).open;
        assert(text.take(start) =~= before.take(start));
    }
}

/// A text whose escape sequences are whole has nothing open left when what is open
/// at its end is dropped, and ends inside a string then where it did before.
pub proof fn dropping_leaves_nothing_open(text: Seq<char>)
    requires
        escapes_are_whole(text),
    ensures
        unit_scanned(without_open_unit(text)).open == 0,
        unit_scanned(without_open_unit(text)).inside == unit_scanned(text).inside,
{
    open_units_are_short(text);
    let start = text.len() - unit_scanned(text).open;
    open_units_are_short(text.take(start));
    if unit_scanned(text).open > 0 {
        lemma_open_unit_begins(text);
        assert(!is_hex_digit(text[start]));
    } else {
        assert(text.take(start) =~= text);
    }
}

/// How many characters at the beginning of `s`, which stands in a JSON string,
/// write its first character: one, or those of an escape sequence, or those of
/// two that make a surrogate pair. 0 where they are not complete.
pub open spec fn unit_len(s: Seq<char>) -> nat {
    if s.len() == 0 || s[0] == '"' {
        0
    } else if s[0] != '\\' {
        1
    } else if s.len() < 2 {
        0
    } else if s[1] == 'u' {
        if !has_code(s, 2) || is_second_half(code_at(s, 2)) {
            0
        } else if is_first_half(code_at(s, 2)) {
            if s.len() >= 12 && s[6] == '\\' && s[7] == 'u' && has_code(s, 8) && is_second_half(
                code_at(s, 8),
            ) {
                12
            } else {
                0
            }
        } else {
            6
        }
    } else if s[1] == '"' || s[1] == '\\' || s[1] == '/' || s[1] == 'b' || s[1] == 'f' || s[1] == 'n'
        || s[1] == 'r' || s[1] == 't' {
        2
    } else {
        0
    }
}

/// The first character that `s`, which stands in a JSON string, writes.
pub open spec fn unit_char(s: Seq<char>) -> char {
    if s[0] != '\\' {
        s[0]
    } else if s[1] == 'u' {
        if is_first_half(code_at(s, 2)) {
            (0x10000 + 0x400 * (code_at(s, 2) - 0xd800) + (code_at(s, 8) - 0xdc00)) as char
        } else {
            code_at(s, 2) as char
        }
    } else if s[1] == 'b' {
        '\u{8}'
    } else if s[1] == 'f' {
        '\u{c}'
    } else if s[1] == 'n' {
        '\n'
    } else if s[1] == 'r' {
        '\r'
    } else if s[1] == 't' {
        '\t'
    } else {
        s[1]
    }
}

/// Whether `s`, which stands in a JSON string, writes whole characters only.
pub open spec fn is_closed(s: Seq<char>) -> bool
    decreases s.len(),
{
    s.len() > 0 ==> unit_len(s) > 0 && unit_len(s) <= s.len() && is_closed(
        s.skip(unit_len(s) as int),
    )
}

/// The text that `s`, which stands in a JSON string, writes.
pub open spec fn decoded(s: Seq<char>) -> Seq<char>
    decreases s.len(),
{
    if unit_len(s) == 0 || unit_len(s) > s.len() {
        Seq::empty()
    } else {
        seq![unit_char(s)] + decoded(s.skip(unit_len(s) as int))
    }
}

/// What is written by whole characters and more behind them is what they write
/// and what that writes.
pub proof fn decoded_in_parts(s: Seq<char>, more: Seq<char>)
    requires
        is_closed(s),
    ensures
        decoded(s + more) == decoded(s) + decoded(more),
        is_closed(more) ==> is_closed(s + more),
    decreases s.len(),
{
    let n = unit_len(s) as int;
    if s.len() == 0 {
        assert(s + more =~= more);
        assert(decoded(s) + decoded(more) =~= decoded(more));
    } else {
        let rest = s.skip(n);
        decoded_in_parts(rest, more);
        let both = s + more;
        assert(forall|i: int| 0 <= i < s.len() ==> both[i] == s[i]);
        assert(unit_len(both) == n);
        assert(unit_char(both) == unit_char(s));
        assert(both.skip(n) =~= rest + more);
        assert(decoded(both) =~= decoded(s) + decoded(more));
    }
}

/// A sequence `\uXXXX` in a string, behind whole characters or behind the first
/// half of a surrogate pair, as it comes character by character.
proof fn lemma_unit_code(text: Seq<char>, s: Seq<char>)
    requires
        unit_scanned(text) == in_string() || unit_scanned(text) == (UnitScan {
            open: 6,
            ..in_string()
        }),
        s.len() >= 6,
        s[0] == '\\',
        s[1] == 'u',
        has_code(s, 2),
    ensures
        forall|k: int|
            0 <= k < 6 ==> (#[trigger] unit_scanned(text + s.take(k))).inside && unit_scanned(
                text + s.take(k),
            ).open == unit_scanned(text).open + k,
        unit_scanned(text + s.take(6)) == (UnitScan {
            open: if unit_scanned(text).open == 0 && is_first_half(code_at(s, 2)) {
                6
            } else {
                0
            },
            ..in_string()
        }),
{
    let t1 = text.push(s[0]);
    let t2 = t1.push(s[1]);
    let t3 = t2.push(s[2]);
    let t4 = t3.push(s[3]);
    let t5 = t4.push(s[4]);
    lemma_unit_push(text, s[0]);
    lemma_unit_push(t1, s[1]);
    lemma_unit_push(t2, s[2]);
    lemma_unit_push(t3, s[3]);
    lemma_unit_push(t4, s[4]);
    lemma_unit_push(t5, s[5]);
    assert(text + s.take(0) =~= text);
    assert(text + s.take(1) =~= t1);
    assert(text + s.take(2) =~= t2);
    assert(text + s.take(3) =~= t3);
    assert(text + s.take(4) =~= t4);
    assert(text + s.take(5) =~= t5);
    assert(text + s.take(6) =~= t5.push(s[5]));
}

/// The first character that `s` writes, as it comes: it is open until it is whole.
proof fn lemma_unit(text: Seq<char>, s: Seq<char>)
    requires
        unit_scanned(text) == in_string(),
        0 < unit_len(s) <= s.len(),
    ensures
        forall|k: int|
            0 <= k < unit_len(s) ==> (#[trigger] unit_scanned(text + s.take(k))).inside
                && unit_scanned(text + s.take(k)).open == k,
        unit_scanned(text + s.take(unit_len(s) as int)) == in_string(),
{
    let n = unit_len(s) as int;
    assert(text + s.take(0) =~= text);
    lemma_unit_push(text, s[0]);
    assert(text + s.take(1) =~= text.push(s[0]));
    if n == 2 {
        lemma_unit_push(text.push(s[0]), s[1]);
        assert(text + s.take(2) =~= text.push(s[0]).push(s[1]));
    } else if n >= 6 {
        lemma_unit_code(text, s);
        if n == 12 {
            let second = s.skip(6);
            let half = text + s.take(6);
            assert(second[0] == s[6] && second[1] == s[7] && second[2] == s[8] && second[3] == s[9]
                && second[4] == s[10] && second[5] == s[11]);
            lemma_unit_code(half, second);
            assert(half + second.take(6) =~= text + s.take(12));
            assert forall|k: int| 0 <= k < 12 implies (#[trigger] unit_scanned(
                text + s.take(k),
            )).inside && unit_scanned(text + s.take(k)).open == k by {
                if k >= 6 {
                    assert(half + second.take(k - 6) =~= text + s.take(k));
                }
            }
        }
    }
}

/// How many characters at the beginning of `s` write whole characters, where only
/// the first `m` have come.
pub open spec fn whole_len(s: Seq<char>, m: int) -> int
    decreases s.len(),
{
    if unit_len(s) == 0 || unit_len(s) > s.len() || m < unit_len(s) {
        0
    } else {
        unit_len(s) + whole_len(s.skip(unit_len(s) as int), m - unit_len(s))
    }
}

/// Wherever a string is cut that writes whole characters, what is open at the cut
/// is what comes behind the last whole character.
pub proof fn a_cut_leaves_whole_characters(text: Seq<char>, s: Seq<char>, m: int)
    requires
        unit_scanned(text) == in_string(),
        is_closed(s),
        0 <= m <= s.len(),
    ensures
        0 <= whole_len(s, m) <= m,
        is_closed(s.take(whole_len(s, m))),
        unit_scanned(text + s.take(m)).inside,
        unit_scanned(text + s.take(m)).open == m - whole_len(s, m),
        m == s.len() ==> whole_len(s, m) == m,
    decreases s.len(),
{
    let n = unit_len(s) as int;
    let k = whole_len(s, m);
    if s.len() == 0 {
        assert(text + s.take(m) =~= text);
        assert(s.take(0) =~= s);
    } else {
        lemma_unit(text, s);
        if m < n {
            assert(s.take(0) =~= Seq::empty());
        } else {
            let rest = s.skip(n);
            a_cut_leaves_whole_characters(text + s.take(n), rest, m - n);
            assert(text + s.take(n) + rest.take(m - n) =~= text + s.take(m));
            let part = s.take(k);
            assert(forall|i: int| 0 <= i < k ==> part[i] == s[i]);
            assert(unit_len(part) == n);
            assert(part.skip(n) =~= rest.take(k - n));
        }
    }
}

/// Whether `text` begins a JSON text.
pub open spec fn begins_json(text: Seq<char>) -> bool {
    exists|rest: Seq<char>| #[trigger] parsed_json(text + rest) is Ok
}

/// Whether `text` is `head`, where no string is open, and then a string, not yet
/// at its end, of which `part` has come, with whole characters only.
pub open spec fn is_cut_in_string(text: Seq<char>, head: Seq<char>, part: Seq<char>) -> bool {
    text == head + "\""@ + part && !scanned(head).inside && is_closed(part)
}

/// Where a string is cut behind whole characters, the text ends inside it, and
/// nothing is open.
pub proof fn a_cut_string_is_open(text: Seq<char>, head: Seq<char>, part: Seq<char>)
    requires
        is_cut_in_string(text, head, part),
    ensures
        scanned(text).inside,
        unit_scanned(text) == in_string(),
        without_open_escape(text) == text,
        without_open_unit(text) == text,
{
    lemma_string_opens(head);
    a_cut_leaves_whole_characters(head + "\""@, part, part.len() as int);
    assert(part.take(part.len() as int) =~= part);
    open_units_are_short(text);
    assert(text.take(text.len() as int) =~= text);
}

proof fn lemma_string_opens(head: Seq<char>)
    requires
        !scanned(head).inside,
    ensures
        unit_scanned(head + "\""@) == in_string(),
{
    reveal_strlit("\"");
    open_units_are_short(head);
    lemma_unit_push(head, '"');
    assert(head + "\""@ =~= head.push('"'));
}

/// A string that writes whole characters and is cut anywhere is cut behind whole
/// characters once what is open at the cut is dropped.
pub proof fn dropping_what_is_open_cuts_in_the_string(head: Seq<char>, body: Seq<char>, m: int)
    requires
        !scanned(head).inside,
        is_closed(body),
        0 <= m <= body.len(),
    ensures
        scanned(head + "\""@ + body.take(m)).inside,
        0 <= whole_len(body, m) <= m,
        is_cut_in_string(
            without_open_unit(head + "\""@ + body.take(m)),
            head,
            body.take(whole_len(body, m)),
        ),
{
    lemma_string_opens(head);
    let text = head + "\""@ + body.take(m);
    a_cut_leaves_whole_characters(head + "\""@, body, m);
    open_units_are_short(text);
    assert(without_open_unit(text) =~= head + "\""@ + body.take(whole_len(body, m)));
}

/// How many brackets are open at the end of the JSON text `text`.
pub open spec fn depth(text: Seq<char>) -> int
    decreases text.len(),
{
    if text.len() == 0 {
        0
    } else {
        let before = depth(text.drop_last());
        let c = text.last();
        if scanned(text.drop_last()).inside {
            before
        } else if c == '{' || c == '[' {
            before + 1
        } else if c == '}' || c == ']' {
            before - 1
        } else {
            before
        }
    }
}

/// Whether `s` is nothing but white space of JSON.
pub open spec fn is_blank(s: Seq<char>) -> bool {
    forall|i: int|
        0 <= i < s.len() ==> {
            let c = #[trigger] s[i];
            c == ' ' || c == '\n' || c == '\r' || c == '\t'
        }
}

/// Whether `head` is `front`, then a string that writes `key`, and a colon, where
/// `front` has come to where a member of the outermost object begins.
pub open spec fn is_member_head(
    head: Seq<char>,
    front: Seq<char>,
    name: Seq<char>,
    spaces: (Seq<char>, Seq<char>),
    key: Seq<char>,
) -> bool {
    &&& head == front + "\""@ + name + "\""@ + spaces.0 + ":"@ + spaces.1
    &&& !scanned(front).inside && depth(front) == 1
    &&& is_closed(name) && decoded(name) == key
    &&& is_blank(spaces.0) && is_blank(spaces.1)
}

/// Whether `head`, as the beginning of a JSON text, leads up to the value of the
/// member `key` of the outermost object.
pub open spec fn leads_to_member(head: Seq<char>, key: Seq<char>) -> bool {
    &&& !scanned(head).inside
    &&& exists|front: Seq<char>, name: Seq<char>, spaces: (Seq<char>, Seq<char>)|
        is_member_head(head, front, name, spaces, key)
}

/// Whether `key` is one of those that `serde_json` reserves for itself: an object
/// whose first key is such a one is read as something else than an object.
pub open spec fn is_reserved(key: Seq<char>) -> bool {
    starts_with(key, "$serde_json::private::"@)
}

/// Whether an object begins in `text`, behind `front`, whose first key, written by
/// `name`, is reserved; `rest` is empty where that key may not have come to its
/// end.
pub open spec fn begins_reserved(
    text: Seq<char>,
    front: Seq<char>,
    space: Seq<char>,
    name: Seq<char>,
    rest: Seq<char>,
) -> bool {
    &&& text == front + "{"@ + space + "\""@ + name + rest
    &&& !scanned(front).inside && is_blank(space)
    &&& is_closed(name) && is_reserved(decoded(name))
    &&& rest.len() > 0 ==> rest[0] == '"'
}

/// Whether an object begins in `text` whose first key is reserved.
pub open spec fn has_reserved_key(text: Seq<char>) -> bool {
    exists|front: Seq<char>, space: Seq<char>, name: Seq<char>, rest: Seq<char>|
        begins_reserved(text, front, space, name, rest)
}

/// Whether `text` is cut in the string of the member `key` of the outermost object,
/// which is not reserved: `part` has come of it, with whole characters only, behind
/// `head`.
pub open spec fn is_cut_in_member(
    text: Seq<char>,
    head: Seq<char>,
    part: Seq<char>,
    key: Seq<char>,
) -> bool {
    is_cut_in_string(text, head, part) && leads_to_member(head, key) && !is_reserved(key)
}

/// Whether the string behind `head`, `part`, is what is read under `key` off the
/// value `result` of reading `text`, wherever `head` leads up to that member and no
/// other string follows it.
pub open spec fn reads_last_member(
    text: Seq<char>,
    result: Result<serde_json::Value, serde_json::Error>,
) -> bool {
    forall|head: Seq<char>, part: Seq<char>, tail: Seq<char>, key: Seq<char>|
        result is Ok && #[trigger] leads_to_member(head, key) && !is_reserved(key) && is_closed(
            part,
        ) && !tail.contains('"') && text == #[trigger] (head + "\""@ + part + "\""@ + tail)
            ==> json_str_member(json_text(result->Ok_0), key) == Some(decoded(part))
}

/// The string that stands under `key` in the JSON value with the compact text
/// `json`, as `Value::as_str` reads it off the indexed value.
pub uninterp spec fn json_str_member(json: Seq<char>, key: Seq<char>) -> Option<Seq<char>>;

/// What `partial_json_fixer::fix_json` makes of a text.
pub uninterp spec fn completed_json(text: Seq<char>) -> Seq<char>;

/// `serde_json::Value::from_str`: which texts are read, what the value read is
/// and what the error says depend on the text alone. The text `{}` reads as
/// the object without members. Where the last string of the text is the value of
/// a member of the outermost object, indexing gives what that string writes: of
/// members with one key the last counts. Keys that `serde_json` reserves are left
/// out; an outermost object that begins with one and has another member is not
/// read at all.
#[verifier::external_body]
pub(crate) fn value_from_str(text: &str) -> (result: Result<serde_json::Value, serde_json::Error>)
    ensures
        outcome_text(result) == parsed_json(text@),
        text@ == "{}"@ ==> result is Ok && json_text(result->Ok_0) == "{}"@,
        reads_last_member(text@, result),
{
    text.parse()
}

/// `serde_json::to_string` on a `Value`: it writes to memory a value whose keys
/// are strings, so it succeeds, and it writes the value's compact text.
#[verifier::external_body]
pub(crate) fn value_to_string(value: &serde_json::Value) -> (result: Result<String, serde_json::Error>)
    ensures
        result is Ok,
        result->Ok_0@ == json_text(*value),
{
    serde_json::to_string(value)
}

/// `serde_json::Value::Object` on an empty map: the value written `{}`.
#[verifier::external_body]
pub(crate) fn empty_object() -> (value: serde_json::Value)
    ensures
        json_text(value) == "{}"@,
{
    serde_json::Value::Object(Default::default())
}

/// `serde_json::Value::default`: the value written `null`.
#[verifier::external_body]
pub(crate) fn null() -> (value: serde_json::Value)
    ensures
        json_text(value) == "null"@,
{
    serde_json::Value::default()
}

/// `serde_json::Value`'s index by a string, then `Value::as_u64`: depends on
/// what the value holds and on the key alone.
#[verifier::external_body]
pub(crate) fn u64_member(value: &serde_json::Value, key: &str) -> (member: Option<u64>)
    ensures
        member == json_u64_member(json_text(*value), key@),
{
    value[key].as_u64()
}

/// `serde_json::Value`'s index by a string, then `Value::as_str`: depends on
/// what the value holds and on the key alone.
#[verifier::external_body]
pub(crate) fn str_member(value: &serde_json::Value, key: &str) -> (member: Option<String>)
    ensures
        opt_view(member) == json_str_member(json_text(*value), key@),
{
    value[key].as_str().map(|text| text.to_owned())
}

/// `serde_json::Error`'s `to_string`.
#[verifier::external_body]
pub(crate) fn error_to_string(error: &serde_json::Error) -> (text: String)
    ensures
        text@ == json_error_text(*error),
{
    error.to_string()
}

/// `partial_json_fixer::fix_json`: depends on the text alone. Where the text
/// ends inside a string, an escape sequence at its end that is not complete is
/// dropped, and what is put behind the rest is a quotation mark and no other.
/// Where, moreover, the text begins a JSON text and its string is cut behind whole
/// characters, the result is a JSON text, if that string is the value of a member
/// of the outermost object, or if no object begins with a key that `serde_json`
/// reserves; the one such member whose key is reserved is left out. A text that is
/// JSON is left as it is. What closes the brackets, and what becomes of other texts
/// that end outside a string, is not said.
#[verifier::external_body]
pub(crate) fn fix_json(partial_json: &str) -> (json: String)
    ensures
        json@ == completed_json(partial_json@),
        scanned(partial_json@).inside ==> starts_with(
            json@,
            without_open_escape(partial_json@) + "\""@,
        ),
        scanned(partial_json@).inside ==> !json@.skip(
            without_open_escape(partial_json@).len() as int + 1,
        ).contains('"'),
        begins_json(partial_json@) && !has_reserved_key(partial_json@) && (exists|
            head: Seq<char>,
            part: Seq<char>,
        | is_cut_in_string(partial_json@, head, part)) ==> parsed_json(json@) is Ok,
        begins_json(partial_json@) && (exists|head: Seq<char>, part: Seq<char>, key: Seq<char>|
            is_cut_in_member(partial_json@, head, part, key)) ==> parsed_json(json@) is Ok,
        parsed_json(partial_json@) is Ok ==> json@ == partial_json@,
{
    partial_json_fixer::fix_json(partial_json)
}

/// Why a text is not JSON: what `serde_json` reported, which tells the place too,
/// and what it says of itself.
#[derive(Debug)]
pub struct JsonError {
    pub message: String,
    pub error: serde_json::Error,
}

/// The error `error`, with what it says of itself.
pub(crate) fn json_error(error: serde_json::Error) -> (wrapped: JsonError)
    ensures
        wrapped.error == error,
        wrapped.message@ == json_error_text(error),
{
    JsonError { message: error_to_string(&error), error }
}

/// The hexadecimal digits are these, and stand for these numbers.
pub proof fn hexadecimal_digits_are_these(c: char, k: int)
    requires
        0 <= k < 16,
    ensures
        is_hex_digit(c) <==> "0123456789abcdefABCDEF"@.contains(c),
        hex_value("0123456789abcdef"@[k]) == k,
        hex_value("0123456789ABCDEF"@[k]) == k,
        is_hex_digit("0123456789abcdef"@[k]),
        is_hex_digit("0123456789ABCDEF"@[k]),
{
    reveal_strlit("0123456789abcdefABCDEF");
    reveal_strlit("0123456789abcdef");
    reveal_strlit("0123456789ABCDEF");
    let all = "0123456789abcdefABCDEF"@;
    if is_hex_digit(c) {
        let i = if '0' <= c <= '9' {
            c as int - 48
        } else if 'a' <= c <= 'f' {
            c as int - 97 + 10
        } else {
            c as int - 65 + 16
        };
        assert(all[i] == c);
    }
}

/// In a JSON string a character stands for itself, but for the quotation mark, which
/// ends the string, and the backslash. Behind a backslash, one of eight characters
/// stands for what it names. A backslash alone, or before any other character but
/// `u`, writes nothing.
pub proof fn characters_are_written_so(c: char, k: int, rest: Seq<char>)
    requires
        0 <= k < 8,
    ensures
        c != '"' && c != '\\' ==> {
            &&& decoded(seq![c] + rest) == seq![c] + decoded(rest)
            &&& is_closed(seq![c] + rest) == is_closed(rest)
        },
        ({
            let escape = seq!['\\', "\"\\/bfnrt"@[k]];
            &&& decoded(escape + rest) == seq!["\"\\/\u{8}\u{c}\n\r\t"@[k]] + decoded(rest)
            &&& is_closed(escape + rest) == is_closed(rest)
        }),
        !is_closed(seq!['"'] + rest),
        !is_closed(seq!['\\']),
        c != 'u' && !"\"\\/bfnrt"@.contains(c) ==> !is_closed(seq!['\\', c] + rest),
        is_closed(Seq::empty()),
        decoded(Seq::empty()) == Seq::<char>::empty(),
{
    reveal_strlit("\"\\/bfnrt");
    reveal_strlit("\"\\/\u{8}\u{c}\n\r\t");
    let plain = seq![c] + rest;
    assert(plain[0] == c);
    assert(plain.skip(1) =~= rest);
    let names = "\"\\/bfnrt"@;
    let escape = seq!['\\', names[k]] + rest;
    assert(escape[0] == '\\' && escape[1] == names[k]);
    assert(escape.skip(2) =~= rest);
    let quote = seq!['"'] + rest;
    assert(quote[0] == '"');
    let other = seq!['\\', c] + rest;
    assert(other[0] == '\\' && other[1] == c);
    if !names.contains(c) {
        assert(names[0] != c && names[1] != c && names[2] != c && names[3] != c && names[4] != c
            && names[5] != c && names[6] != c && names[7] != c);
    }
}

/// Behind `\u` four hexadecimal digits write the character with the code that they
/// write. Two such sequences, with the halves of a surrogate pair, write one
/// character together, and neither half writes one alone. Fewer digits write nothing.
pub proof fn codes_are_written_so(
    digits: Seq<char>,
    more: Seq<char>,
    rest: Seq<char>,
    code: int,
    second: int,
)
    requires
        digits.len() == 4,
        more.len() == 4,
        forall|i: int| 0 <= i < 4 ==> is_hex_digit(#[trigger] digits[i]),
        forall|i: int| 0 <= i < 4 ==> is_hex_digit(#[trigger] more[i]),
        code == 4096 * hex_value(digits[0]) + 256 * hex_value(digits[1]) + 16 * hex_value(
            digits[2],
        ) + hex_value(digits[3]),
        second == 4096 * hex_value(more[0]) + 256 * hex_value(more[1]) + 16 * hex_value(more[2])
            + hex_value(more[3]),
    ensures
        code < 0xd800 || 0xdfff < code ==> {
            &&& decoded(seq!['\\', 'u'] + digits + rest) == seq![code as char] + decoded(rest)
            &&& is_closed(seq!['\\', 'u'] + digits + rest) == is_closed(rest)
        },
        0xd800 <= code <= 0xdbff && 0xdc00 <= second <= 0xdfff ==> {
            let pair = seq!['\\', 'u'] + digits + seq!['\\', 'u'] + more;
            &&& decoded(pair + rest) == seq![
                (0x10000 + (code - 0xd800) * 0x400 + (second - 0xdc00)) as char,
            ] + decoded(rest)
            &&& is_closed(pair + rest) == is_closed(rest)
        },
        0xd800 <= code <= 0xdfff ==> !is_closed(seq!['\\', 'u'] + digits),
        0xd800 <= code <= 0xdbff && !(0xdc00 <= second <= 0xdfff) ==> !is_closed(
            seq!['\\', 'u'] + digits + seq!['\\', 'u'] + more + rest,
        ),
        forall|n: int|
            0 <= n < 4 ==> !is_closed(seq!['\\', 'u'] + #[trigger] digits.take(n)),
{
    let one = seq!['\\', 'u'] + digits + rest;
    assert(one[0] == '\\' && one[1] == 'u');
    assert(one[2] == digits[0] && one[3] == digits[1] && one[4] == digits[2] && one[5]
        == digits[3]);
    assert(one.skip(6) =~= rest);
    assert(code_at(one, 2) == code);
    let alone = seq!['\\', 'u'] + digits;
    assert(alone[0] == '\\' && alone[1] == 'u');
    assert(alone[2] == digits[0] && alone[3] == digits[1] && alone[4] == digits[2] && alone[5]
        == digits[3]);
    assert(code_at(alone, 2) == code);
    let two = seq!['\\', 'u'] + digits + seq!['\\', 'u'] + more + rest;
    assert(two[0] == '\\' && two[1] == 'u' && two[6] == '\\' && two[7] == 'u');
    assert(two[2] == digits[0] && two[3] == digits[1] && two[4] == digits[2] && two[5]
        == digits[3]);
    assert(two[8] == more[0] && two[9] == more[1] && two[10] == more[2] && two[11] == more[3]);
    assert(two.skip(12) =~= rest);
    assert(code_at(two, 2) == code);
    assert(code_at(two, 8) == second);
    assert(0x400 * (code - 0xd800) == (code - 0xd800) * 0x400) by (nonlinear_arith);
    assert forall|n: int| 0 <= n < 4 implies !is_closed(
        seq!['\\', 'u'] + #[trigger] digits.take(n),
    ) by {
        let few = seq!['\\', 'u'] + digits.take(n);
        assert(few[0] == '\\' && few[1] == 'u');
        assert(few.len() < 6);
    }
}

/// Of a string that was cut, as many characters are kept as write whole characters:
/// no longer beginning of what has come does.
pub proof fn a_cut_keeps_all_whole_characters(body: Seq<char>, m: int, k: int)
    requires
        is_closed(body),
        0 <= k <= m <= body.len(),
        is_closed(body.take(k)),
    ensures
        k <= whole_len(body, m),
    decreases body.len(),
{
    let part = body.take(k);
    if k > 0 {
        let n = unit_len(part) as int;
        assert(forall|i: int| 0 <= i < k ==> part[i] == body[i]);
        assert(unit_len(body) == n);
        assert(part.skip(n) =~= body.skip(n).take(k - n));
        a_cut_keeps_all_whole_characters(body.skip(n), m - n, k - n);
    } else {
        lemma_whole_len_is_natural(body, m);
    }
}

proof fn lemma_whole_len_is_natural(s: Seq<char>, m: int)
    ensures
        0 <= whole_len(s, m),
    decreases s.len(),
{
    if 0 < unit_len(s) <= s.len() && unit_len(s) <= m {
        lemma_whole_len_is_natural(s.skip(unit_len(s) as int), m - unit_len(s));
    }
}

/// A text begins outside any string. A quotation mark opens one, and the next that is
/// not part of a character written in it closes it; what stands between strings opens
/// none.
pub proof fn quotation_marks_open_and_close(head: Seq<char>, body: Seq<char>, more: Seq<char>)
    requires
        !scanned(head).inside,
        is_closed(body),
        !more.contains('"'),
    ensures
        !scanned(Seq::empty()).inside,
        !scanned(head + more).inside,
        scanned(head + "\""@ + body).inside,
        !scanned(head + "\""@ + body + "\""@).inside,
    decreases more.len(),
{
    reveal_strlit("\"");
    let open = head + "\""@ + body;
    assert(is_cut_in_string(open, head, body));
    a_cut_string_is_open(open, head, body);
    open_units_are_short(open);
    lemma_unit_push(open, '"');
    assert(open + "\""@ =~= open.push('"'));
    open_units_are_short(open.push('"'));
    if more.len() == 0 {
        assert(head + more =~= head);
    } else {
        assert(more.contains(more.last()));
        let fewer = more.drop_last();
        assert forall|i: int| 0 <= i < fewer.len() implies fewer[i] != '"' by {
            assert(more[i] == fewer[i]);
            assert(more.contains(more[i]));
        }
        quotation_marks_open_and_close(head, body, fewer);
        assert((head + more).drop_last() =~= head + fewer);
    }
}

/// In a string, behind whole characters, a backslash waits for what follows it, and
/// any character but `u` completes it. `\u` waits for four hexadecimal digits. With
/// them it is complete, unless they write the first half of a surrogate pair, which
/// waits for the second. What waits is dropped; all else stays.
pub proof fn only_what_waits_for_more_is_dropped(
    text: Seq<char>,
    c: char,
    digits: Seq<char>,
    n: int,
    code: int,
)
    requires
        unit_scanned(text) == in_string(),
        digits.len() == 4,
        forall|i: int| 0 <= i < 4 ==> is_hex_digit(#[trigger] digits[i]),
        code == 4096 * hex_value(digits[0]) + 256 * hex_value(digits[1]) + 16 * hex_value(
            digits[2],
        ) + hex_value(digits[3]),
        0 <= n < 4,
    ensures
        without_open_unit(text) == text,
        without_open_unit(text.push('\\')) == text,
        c != '"' && c != '\\' ==> without_open_unit(text.push(c)) == text.push(c),
        c != 'u' ==> without_open_unit(text.push('\\').push(c)) == text.push('\\').push(c),
        without_open_unit(text + seq!['\\', 'u'] + digits.take(n)) == text,
        ({
            let whole = text + seq!['\\', 'u'] + digits;
            without_open_unit(whole) == (if 0xd800 <= code <= 0xdbff {
                text
            } else {
                whole
            })
        }),
        0xd800 <= code <= 0xdbff ==> {
            let half = text + seq!['\\', 'u'] + digits;
            &&& without_open_unit(half.push('\\')) == text
            &&& without_open_unit(half.push('\\').push('u')) == text
            &&& c != '"' && c != '\\' ==> without_open_unit(half.push(c)) == half.push(c)
        },
{
    lemma_unit_push(text, '\\');
    lemma_unit_push(text, c);
    lemma_unit_push(text.push('\\'), c);
    assert(text.push('\\').take(text.len() as int) =~= text);
    let s = seq!['\\', 'u'] + digits;
    assert(s[0] == '\\' && s[1] == 'u' && s[2] == digits[0] && s[3] == digits[1] && s[4]
        == digits[2] && s[5] == digits[3]);
    assert(code_at(s, 2) == code);
    lemma_unit_code(text, s);
    let few = text + seq!['\\', 'u'] + digits.take(n);
    assert(few =~= text + s.take(n + 2));
    assert(few.take(text.len() as int) =~= text);
    let whole = text + seq!['\\', 'u'] + digits;
    assert(whole =~= text + s.take(6));
    assert(whole.take(text.len() as int) =~= text);
    lemma_unit_push(whole, '\\');
    lemma_unit_push(whole.push('\\'), 'u');
    lemma_unit_push(whole, c);
    assert(whole.push('\\').take(text.len() as int) =~= text);
    assert(whole.push('\\').push('u').take(text.len() as int) =~= text);
}

/// Outside a string nothing waits for more, and a quotation mark in one, behind whole
/// characters, ends it; an escape sequence that breaks off there ends with it.
pub proof fn a_quotation_mark_ends_what_waits(text: Seq<char>, digits: Seq<char>, n: int)
    requires
        digits.len() == 4,
        forall|i: int| 0 <= i < 4 ==> is_hex_digit(#[trigger] digits[i]),
        0 <= n < 4,
    ensures
        unit_scanned(text).inside == scanned(text).inside,
        !scanned(text).inside ==> without_open_unit(text) == text,
        unit_scanned(text) == in_string() ==> {
            &&& !unit_scanned(text.push('"')).inside
            &&& !unit_scanned((text + seq!['\\', 'u'] + digits.take(n)).push('"')).inside
            &&& unit_scanned(text.push('\\').push('"')).inside
        },
{
    open_units_are_short(text);
    if unit_scanned(text) == in_string() {
        lemma_unit_push(text, '"');
        lemma_unit_push(text, '\\');
        lemma_unit_push(text.push('\\'), '"');
        let s = seq!['\\', 'u'] + digits;
        assert(s[0] == '\\' && s[1] == 'u' && s[2] == digits[0] && s[3] == digits[1] && s[4]
            == digits[2] && s[5] == digits[3]);
        lemma_unit_code(text, s);
        let few = text + seq!['\\', 'u'] + digits.take(n);
        assert(few =~= text + s.take(n + 2));
        lemma_unit_push(few, '"');
    }
}

} // verus!
