//! What language models send back, made usable: tool arguments, JSON that is
//! still arriving, and complaints about prompts that are too long.
use vstd::prelude::*;
use vstd::slice::slice_subrange;

use crate::json::{
    a_cut_string_is_open, begins_json, closed_texts_grow, closed_units_grow, completed_json,
    decoded, decoded_in_parts, dropping_leaves_nothing_open,
    dropping_what_is_open_cuts_in_the_string, empty_object, escapes_are_whole, fix_json,
    has_reserved_key, hex_value, is_closed, is_cut_in_member, is_cut_in_string, is_hex_digit,
    is_reserved, json_error, json_error_text, json_str_member, json_text, leads_to_member,
    open_units_are_short, parsed_json, scanned, str_member, unit_len, unit_scanned,
    value_from_str, whole_len, without_open_escape, without_open_unit, JsonError, UnitScan,
};
use crate::number::{
    decimal, first_u64, first_u64_finds_a_written_number, first_u64_of, is_digit,
};
use crate::replace_lines_tool::opt_view;
use crate::search::{
    contains, contains_text, find_chars, find_from, find_is_first, occurs_at, starts_with,
    starts_with_text,
};
use crate::text::{
    chars_of, is_white_space, lower_chars, lowered, string_of, trim, trim_chars,
    trimming_takes_what_surrounds,
};

verus! {

/// What the tool arguments `arguments` hold: the compact text of the JSON value,
/// or what is wrong with them. Blank arguments hold the empty object.
pub open spec fn tool_arguments(arguments: Seq<char>) -> Result<Seq<char>, Seq<char>> {
    if trim(arguments).len() == 0 {
        Ok("{}"@)
    } else {
        parsed_json(trim(arguments))
    }
}

/// Parses the arguments of a tool call, taking empty text for an empty object.
///
/// Many providers send empty text for a call without arguments.
pub fn parse_tool_arguments(arguments: &str) -> (result: Result<serde_json::Value, JsonError>)
    ensures
        match result {
            Ok(value) => tool_arguments(arguments@) == Ok::<_, Seq<char>>(json_text(value)),
            Err(error) => tool_arguments(arguments@) == Err::<Seq<char>, _>(
                json_error_text(error.error),
            ) && error.message@ == json_error_text(error.error),
        },
        trim(arguments@) == "{}"@ ==> result is Ok && json_text(result->Ok_0) == "{}"@,
{
    let chars = chars_of(arguments);
    let trimmed = trim_chars(&chars);
    if trimmed.len() == 0 {
        Ok(empty_object())
    } else {
        match value_from_str(&string_of(trimmed)) {
            Ok(value) => Ok(value),
            Err(error) => Err(json_error(error)),
        }
    }
}

/// How many backslashes `s` ends with.
pub open spec fn trailing_backslashes(s: Seq<char>) -> nat
    decreases s.len(),
{
    if s.len() > 0 && s.last() == '\\' {
        1 + trailing_backslashes(s.drop_last())
    } else {
        0
    }
}

/// `json` without what stands at its end and writes no whole character in a
/// string: an escape sequence that is not complete, or a surrogate pair that is
/// not. Outside a string, where there are none, a backslash that no other
/// backslash completes is taken for one.
pub open spec fn without_incomplete_escape(json: Seq<char>) -> Seq<char> {
    if scanned(json).inside {
        without_open_unit(json)
    } else if trailing_backslashes(json) % 2 == 1 {
        json.drop_last()
    } else {
        json
    }
}

/// What is left after stripping is all of the text but at most its last eleven
/// characters. Where the escape sequences of the text are whole, nothing is left
/// open in a string, and stripping again changes nothing there.
pub proof fn stripping_completes_the_escapes(json: Seq<char>)
    ensures
        without_incomplete_escape(json).is_prefix_of(json),
        json.len() <= without_incomplete_escape(json).len() + 11,
        escapes_are_whole(json) && scanned(json).inside ==> {
            let stripped = without_incomplete_escape(json);
            &&& scanned(stripped).inside
            &&& unit_scanned(stripped).open == 0
            &&& without_incomplete_escape(stripped) == stripped
        },
{
    open_units_are_short(json);
    if escapes_are_whole(json) && scanned(json).inside {
        dropping_leaves_nothing_open(json);
        let stripped = without_incomplete_escape(json);
        open_units_are_short(stripped);
        assert(stripped.take(stripped.len() as int) =~= stripped);
    }
}

/// As text arrives piece by piece, each stripped state is a prefix of every
/// later one.
pub proof fn stripped_states_grow(json: Seq<char>, more: Seq<char>)
    ensures
        without_incomplete_escape(json).is_prefix_of(without_incomplete_escape(json + more)),
{
    let whole = json + more;
    open_units_are_short(json);
    open_units_are_short(whole);
    closed_units_grow(json, more);
    if more.len() == 0 {
        assert(whole =~= json);
    } else {
        assert(whole.drop_last() =~= json + more.drop_last());
        if !scanned(json).inside {
            assert(without_open_unit(json) =~= json);
        }
    }
}

/// What is shown of `json`, which is still arriving.
pub open spec fn shown_so_far(json: Seq<char>) -> Seq<char> {
    without_open_escape(without_incomplete_escape(json))
}

/// What is shown of a text that is still arriving is the beginning of what is
/// shown of it later and of the final text: so a string, while it arrives, shows
/// nothing that the final text does not hold. Where its escape sequences are
/// whole, what is not shown of a string is at most what writes no whole character.
pub proof fn what_is_shown_is_final(json: Seq<char>, more: Seq<char>)
    ensures
        shown_so_far(json).is_prefix_of(shown_so_far(json + more)),
        shown_so_far(json).is_prefix_of(json + more),
        escapes_are_whole(json) && scanned(json).inside ==> shown_so_far(json)
            == without_open_unit(json),
{
    let first = without_incomplete_escape(json);
    let later = without_incomplete_escape(json + more);
    stripping_completes_the_escapes(json);
    stripped_states_grow(json, more);
    open_units_are_short(first);
    let between = later.skip(first.len() as int);
    assert(first + between =~= later);
    closed_texts_grow(first, between);
    assert(first.take(first.len() as int) =~= first);
}

/// What has come of a string, in whole characters, is the beginning of the final
/// string.
pub proof fn streamed_strings_grow(part: Seq<char>, more: Seq<char>)
    requires
        is_closed(part),
    ensures
        decoded(part).is_prefix_of(decoded(part + more)),
{
    decoded_in_parts(part, more);
}

proof fn lemma_prefix_begins_json(text: Seq<char>, more: Seq<char>)
    requires
        begins_json(text + more),
    ensures
        begins_json(text),
{
    let rest = choose|rest: Seq<char>| #[trigger] parsed_json(text + more + rest) is Ok;
    assert(text + more + rest =~= text + (more + rest));
}

/// Completes JSON that is still arriving, so that it can be parsed.
///
/// An escape sequence at the end of the text that is not complete is dropped
/// first, so that no state shows what is not in the final text. A string that is
/// still arriving is closed behind what is shown of it. The result is JSON where
/// the text begins JSON and ends in a string, behind whole characters once it is
/// stripped, which is the value of a member of the outermost object, or else where
/// no object in it begins with a key that `serde_json` reserves. Where stripping
/// leaves JSON, that is the result.
pub fn fix_streamed_json(partial_json: &str) -> (json: String)
    ensures
        json@ == completed_json(without_incomplete_escape(partial_json@)),
        scanned(without_incomplete_escape(partial_json@)).inside ==> starts_with(
            json@,
            shown_so_far(partial_json@) + "\""@,
        ) && !json@.skip(shown_so_far(partial_json@).len() as int + 1).contains('"'),
        forall|head: Seq<char>, part: Seq<char>|
            begins_json(partial_json@) && !has_reserved_key(
                without_incomplete_escape(partial_json@),
            ) && #[trigger] is_cut_in_string(
                without_incomplete_escape(partial_json@),
                head,
                part,
            ) ==> parsed_json(json@) is Ok,
        forall|head: Seq<char>, part: Seq<char>, key: Seq<char>|
            begins_json(partial_json@) && #[trigger] is_cut_in_member(
                without_incomplete_escape(partial_json@),
                head,
                part,
                key,
            ) ==> parsed_json(json@) is Ok,
        parsed_json(without_incomplete_escape(partial_json@)) is Ok ==> json@
            == without_incomplete_escape(partial_json@),
        parsed_json(partial_json@) is Ok && !scanned(partial_json@).inside && trailing_backslashes(
            partial_json@,
        ) == 0 ==> json@ == partial_json@,
{
    proof {
        let stripped = without_incomplete_escape(partial_json@);
        stripping_completes_the_escapes(partial_json@);
        let dropped = partial_json@.skip(stripped.len() as int);
        assert(stripped + dropped =~= partial_json@);
        if begins_json(partial_json@) {
            lemma_prefix_begins_json(stripped, dropped);
        }
    }
    fix_json(strip_trailing_incomplete_escape(partial_json))
}

/// The string that stands under `key` in JSON that is still arriving, as far as it
/// has come.
///
/// Where the text begins JSON and is cut inside the string of that member of the
/// outermost object, the string is read, wherever in it the cut is and whatever it
/// holds: what is read is what its whole characters write so far, and the beginning
/// of the final string. Only a key that `serde_json` reserves is left out.
pub fn streamed_string(partial_json: &str, key: &str) -> (text: Option<String>)
    ensures
        opt_view(text) == (match parsed_json(
            completed_json(without_incomplete_escape(partial_json@)),
        ) {
            Ok(json) => json_str_member(json, key@),
            Err(_) => None,
        }),
        forall|head: Seq<char>, part: Seq<char>|
            begins_json(partial_json@) && #[trigger] is_cut_in_member(
                without_incomplete_escape(partial_json@),
                head,
                part,
                key@,
            ) ==> opt_view(text) == Some(decoded(part)),
        forall|head: Seq<char>, body: Seq<char>, m: int|
            begins_json(partial_json@) && is_closed(body) && 0 <= m <= body.len() && partial_json@
                == #[trigger] (head + "\""@ + body.take(m)) && leads_to_member(head, key@)
                && !is_reserved(key@) ==> text is Some && text->0@ == decoded(
                body.take(whole_len(body, m)),
            ) && text->0@.is_prefix_of(decoded(body)),
{
    let fixed = fix_streamed_json(partial_json);
    let text = match value_from_str(fixed.as_str()) {
        Ok(value) => str_member(&value, key),
        Err(_) => None,
    };
    proof {
        let stripped = without_incomplete_escape(partial_json@);
        assert forall|head: Seq<char>, part: Seq<char>|
            begins_json(partial_json@) && #[trigger] is_cut_in_member(
                stripped,
                head,
                part,
                key@,
            ) implies opt_view(text) == Some(decoded(part)) by {
            a_cut_string_is_open(stripped, head, part);
            reveal_strlit("\"");
            let shown = stripped + "\""@;
            let tail = fixed@.skip(stripped.len() as int + 1);
            assert(fixed@ =~= fixed@.subrange(0, shown.len() as int) + tail);
            assert(fixed@ =~= head + "\""@ + part + "\""@ + tail);
        }
        assert forall|head: Seq<char>, body: Seq<char>, m: int|
            begins_json(partial_json@) && is_closed(body) && 0 <= m <= body.len() && partial_json@
                == #[trigger] (head + "\""@ + body.take(m)) && leads_to_member(head, key@)
                && !is_reserved(key@) implies text is Some && text->0@ == decoded(
            body.take(whole_len(body, m)),
        ) && text->0@.is_prefix_of(decoded(body)) by {
            dropping_what_is_open_cuts_in_the_string(head, body, m);
            let part = body.take(whole_len(body, m));
            assert(is_cut_in_member(stripped, head, part, key@));
            let more = body.skip(part.len() as int);
            assert(part + more =~= body);
            streamed_strings_grow(part, more);
        }
    }
    text
}

/// The states of a string that is still arriving, each as it is read, are each the
/// beginning of the next: of two cuts of a string that writes whole characters, the
/// earlier shows the beginning of what the later shows, which is the beginning of
/// the final string.
pub proof fn later_cuts_show_more(body: Seq<char>, earlier: int, later: int)
    requires
        is_closed(body),
        0 <= earlier <= later <= body.len(),
    ensures
        decoded(body.take(whole_len(body, earlier))).is_prefix_of(
            decoded(body.take(whole_len(body, later))),
        ),
        decoded(body.take(whole_len(body, later))).is_prefix_of(decoded(body)),
{
    reveal_strlit("\"");
    let empty = Seq::<char>::empty();
    assert(!scanned(empty).inside);
    dropping_what_is_open_cuts_in_the_string(empty, body, earlier);
    dropping_what_is_open_cuts_in_the_string(empty, body, later);
    lemma_whole_len_grows(body, earlier, later);
    let first = body.take(whole_len(body, earlier));
    let second = body.take(whole_len(body, later));
    assert(first + second.skip(first.len() as int) =~= second);
    assert(second + body.skip(second.len() as int) =~= body);
    streamed_strings_grow(first, second.skip(first.len() as int));
    streamed_strings_grow(second, body.skip(second.len() as int));
}

proof fn lemma_whole_len_grows(s: Seq<char>, few: int, many: int)
    requires
        few <= many,
    ensures
        whole_len(s, few) <= whole_len(s, many),
    decreases s.len(),
{
    let n = unit_len(s) as int;
    if 0 < n <= s.len() && n <= many {
        if n <= few {
            lemma_whole_len_grows(s.skip(n), few - n, many - n);
        } else {
            lemma_whole_len_is_not_negative(s.skip(n), many - n);
        }
    }
}

proof fn lemma_whole_len_is_not_negative(s: Seq<char>, m: int)
    ensures
        whole_len(s, m) >= 0,
    decreases s.len(),
{
    let n = unit_len(s) as int;
    if 0 < n <= s.len() && n <= m {
        lemma_whole_len_is_not_negative(s.skip(n), m - n);
    }
}

/// The number that the hexadecimal digit `c` stands for.
fn hex_digit(c: char) -> (value: Option<u32>)
    ensures
        value is Some == is_hex_digit(c),
        value is Some ==> value->0 == hex_value(c) && value->0 < 16,
{
    let n: u32 = c as u32;
    if '0' <= c && c <= '9' {
        Some(n - 48)
    } else if 'a' <= c && c <= 'f' {
        Some(n - 97 + 10)
    } else if 'A' <= c && c <= 'F' {
        Some(n - 65 + 10)
    } else {
        None
    }
}

/// Whether the text `chars` ends inside a string, and how many characters at its
/// end write no whole character there: [`unit_scanned`].
fn scan(chars: &[char]) -> (scan: (bool, usize))
    ensures
        unit_scanned(chars@).inside == scan.0,
        unit_scanned(chars@).open == scan.1,
        scan.1 <= chars@.len(),
{
    let mut inside = false;
    let mut open: usize = 0;
    let mut code: u32 = 0;
    let mut i: usize = 0;
    assert(chars@.take(0) =~= Seq::empty());
    while i < chars.len()
        invariant
            i <= chars@.len(),
            open <= 11,
            code < 0x1000,
            open <= 2 || open == 6 || open == 7 || open == 8 ==> code == 0,
            open == 3 || open == 9 ==> code < 0x10,
            open == 4 || open == 10 ==> code < 0x100,
            unit_scanned(chars@.take(i as int)) == (UnitScan {
                inside,
                open: open as int,
                code: code as int,
            }),
        decreases chars@.len() - i,
    {
        assert(chars@.take(i + 1).drop_last() =~= chars@.take(i as int));
        let c = chars[i];
        let digit = hex_digit(c);
        if !inside {
            inside = c == '"';
        } else if open == 1 || open == 7 {
            open = if c == 'u' {
                open + 1
            } else {
                0
            };
        } else if open > 1 && open != 6 && digit.is_some() {
            let longer: u32 = 16 * code + digit.unwrap();
            code = 0;
            if open == 5 {
                open = if 0xd800 <= longer && longer <= 0xdbff {
                    6
                } else {
                    0
                };
            } else if open == 11 {
                open = 0;
            } else {
                open += 1;
                code = longer;
            }
        } else if open == 6 && c == '\\' {
            open = 7;
        } else {
            inside = c != '"';
            open = if c == '\\' {
                1
            } else {
                0
            };
            code = 0;
        }
        i += 1;
    }
    assert(chars@.take(i as int) =~= chars@);
    proof {
        open_units_are_short(chars@);
    }
    (inside, open)
}

/// `json` without an escape sequence at its end that is not complete, be it for want
/// of the second half of a surrogate pair.
pub fn strip_trailing_incomplete_escape(json: &str) -> (stripped: &str)
    ensures
        stripped@ == without_incomplete_escape(json@),
        scanned(json@).inside ==> stripped@ == without_open_unit(json@),
{
    let chars = chars_of(json);
    let (inside, open) = scan(&chars);
    proof {
        open_units_are_short(json@);
    }
    if inside {
        return json.substring_char(0, chars.len() - open);
    }
    let mut end: usize = chars.len();
    assert(json@.take(end as int) =~= json@);
    while end > 0 && chars[end - 1] == '\\'
        invariant
            end <= chars@.len(),
            chars@ == json@,
            trailing_backslashes(json@) == json@.len() - end + trailing_backslashes(
                json@.take(end as int),
            ),
        decreases end,
    {
        assert(json@.take(end as int).drop_last() =~= json@.take(end - 1));
        end -= 1;
    }
    proof {
        if end > 0 {
            assert(json@.take(end as int).last() == chars@[end - 1]);
        }
    }
    if (chars.len() - end) % 2 == 1 {
        json.substring_char(0, chars.len() - 1)
    } else {
        json
    }
}

/// The first number in `message` behind the first place where `marker` stands in
/// it, upper and lower case taken as one.
pub open spec fn number_after(message: Seq<char>, marker: Seq<char>) -> Option<u64> {
    match find_from(lowered(message), lowered(marker), 0) {
        Some(i) => first_u64(message.skip(i + marker.len())),
        None => None,
    }
}

/// The number of tokens that `message` says the prompt had, if it says so in one
/// of the known ways.
pub open spec fn prompt_tokens(message: Seq<char>) -> Option<u64> {
    let legacy = "prompt is too long: "@;
    if starts_with(message, legacy) && first_u64(message.skip(legacy.len() as int)) is Some {
        first_u64(message.skip(legacy.len() as int))
    } else if contains(lowered(message), "maximum context length"@) && number_after(
        message,
        "resulted in"@,
    ) is Some {
        number_after(message, "resulted in"@)
    } else if number_after(message, "requested"@) is Some {
        number_after(message, "requested"@)
    } else if number_after(message, "prompt_tokens="@) is Some {
        number_after(message, "prompt_tokens="@)
    } else {
        number_after(message, "input token count"@)
    }
}

/// A message that begins "prompt is too long: " and goes on with a number tells
/// that number.
pub proof fn legacy_message_tells_its_number(tokens: u64, rest: Seq<char>)
    requires
        rest.len() > 0 ==> !is_digit(rest.first()),
    ensures
        prompt_tokens("prompt is too long: "@ + decimal(tokens as nat) + rest) == Some(tokens),
{
    let legacy = "prompt is too long: "@;
    let message = legacy + decimal(tokens as nat) + rest;
    assert(message.subrange(0, legacy.len() as int) =~= legacy);
    assert(message.skip(legacy.len() as int) =~= Seq::empty() + decimal(tokens as nat) + rest);
    first_u64_finds_a_written_number(Seq::empty(), tokens, rest);
}

/// Upper and lower case make no difference to whether a message tells of an
/// overflow.
pub proof fn overflow_ignores_letter_case(message: Seq<char>, other: Seq<char>)
    requires
        lowered(message) == lowered(other),
    ensures
        is_overflow_message(message) == is_overflow_message(other),
{
}

/// Whatever begins "prompt is too long: ", in upper or lower case, tells of an
/// overflow.
pub proof fn legacy_message_tells_of_overflow(message: Seq<char>)
    requires
        starts_with(lowered(message), "prompt is too long: "@),
    ensures
        is_overflow_message(message),
{
    let lower = lowered(message);
    let legacy = "prompt is too long: "@;
    let part = "prompt is too long"@;
    reveal_strlit("prompt is too long: ");
    reveal_strlit("prompt is too long");
    assert(legacy.subrange(0, part.len() as int) =~= part);
    assert(lower.subrange(0, part.len() as int) =~= lower.subrange(
        0,
        legacy.len() as int,
    ).subrange(0, part.len() as int));
    assert(occurs_at(lower, part, 0));
}

/// Reads the number of tokens of the prompt out of a message that it is too
/// long, such as "prompt is too long: 12345 tokens".
pub fn parse_prompt_too_long(message: &str) -> (tokens: Option<u64>)
    ensures
        tokens == prompt_tokens(message@),
{
    let chars = chars_of(message);
    let legacy = "prompt is too long: ";
    if starts_with_text(&chars, legacy) {
        let skipped: usize = legacy.unicode_len();
        let rest = slice_subrange(&chars, skipped, chars.len());
        assert(rest@ =~= message@.skip(legacy@.len() as int));
        let tokens = first_u64_of(rest);
        if tokens.is_some() {
            return tokens;
        }
    }
    let lower = lower_chars(&chars);
    // "... your messages resulted in 77490 tokens"
    if contains_text(&lower, "maximum context length") {
        let tokens = parse_u64_after_case_insensitive(message, "resulted in");
        if tokens.is_some() {
            return tokens;
        }
    }
    // "... you requested 77490 tokens"

    let tokens = parse_u64_after_case_insensitive(message, "requested");
    if tokens.is_some() {
        return tokens;
    }
    // "prompt_tokens=77490 ... max_tokens=65536"

    let tokens = parse_u64_after_case_insensitive(message, "prompt_tokens=");
    if tokens.is_some() {
        return tokens;
    }
    // "input token count (77490) exceeds max context length (65536)"

    parse_u64_after_case_insensitive(message, "input token count")
}

/// Whether `message` says that the prompt does not fit into the context window.
pub open spec fn is_overflow_message(message: Seq<char>) -> bool {
    let lower = lowered(message);
    ||| contains(lower, "context_length_exceeded"@)
    ||| contains(lower, "prompt is too long"@)
    ||| contains(lower, "prompt too large"@)
    ||| contains(lower, "maximum context length"@)
    ||| contains(lower, "max context length"@)
    ||| contains(lower, "context window"@) && (contains(lower, "exceed"@) || contains(
        lower,
        "too long"@,
    ) || contains(lower, "too large"@))
    ||| contains(lower, "input token count"@) && contains(lower, "exceed"@)
    ||| contains(lower, "prompt_tokens="@) && contains(lower, "max_tokens="@)
    ||| contains(lower, "prompt tokens"@) && contains(lower, "max tokens"@)
}

/// Whether the message strongly indicates that the prompt does not fit into the
/// context window.
pub fn is_context_window_overflow_message(message: &str) -> (yes: bool)
    ensures
        yes == is_overflow_message(message@),
{
    let lower = lower_chars(&chars_of(message));
    contains_text(&lower, "context_length_exceeded") || contains_text(&lower, "prompt is too long")
        || contains_text(&lower, "prompt too large") || contains_text(
        &lower,
        "maximum context length",
    ) || contains_text(&lower, "max context length") || (contains_text(&lower, "context window") && (
    contains_text(&lower, "exceed") || contains_text(&lower, "too long") || contains_text(
        &lower,
        "too large",
    ))) || (contains_text(&lower, "input token count") && contains_text(&lower, "exceed")) || (
    contains_text(&lower, "prompt_tokens=") && contains_text(&lower, "max_tokens=")) || (
    contains_text(&lower, "prompt tokens") && contains_text(&lower, "max tokens"))
}

/// The first number in `message` behind the first place where `marker` stands in
/// it, upper and lower case taken as one.
pub fn parse_u64_after_case_insensitive(message: &str, marker: &str) -> (number: Option<u64>)
    ensures
        number == number_after(message@, marker@),
{
    let chars = chars_of(message);
    let lower = lower_chars(&chars);
    let marker_lower = lower_chars(&chars_of(marker));
    match find_chars(&lower, &marker_lower) {
        Some(i) => {
            proof {
                find_is_first(lower@, marker_lower@, 0);
                assert(i + marker_lower@.len() <= chars.len());
            }
            let rest = slice_subrange(&chars, i + marker_lower.len(), chars.len());
            assert(rest@ =~= message@.skip(i + marker@.len()));
            first_u64_of(rest)
        },
        None => None,
    }
}

/// The first run of digits in `input`, where the number that it writes fits into
/// 64 bits.
pub fn parse_first_u64(input: &str) -> (number: Option<u64>)
    ensures
        number == first_u64(input@),
{
    first_u64_of(&chars_of(input))
}

/// Tool arguments are read without the white space around them; where that is all,
/// they are the empty object.
pub proof fn blank_arguments_are_the_empty_object(
    before: Seq<char>,
    core: Seq<char>,
    behind: Seq<char>,
)
    requires
        forall|i: int| 0 <= i < before.len() ==> is_white_space(#[trigger] before[i]),
        forall|i: int| 0 <= i < behind.len() ==> is_white_space(#[trigger] behind[i]),
        core.len() > 0 ==> !is_white_space(core.first()) && !is_white_space(core.last()),
    ensures
        core.len() == 0 ==> tool_arguments(before + core + behind) == Ok::<_, Seq<char>>("{}"@),
        core.len() > 0 ==> tool_arguments(before + core + behind) == parsed_json(core),
{
    trimming_takes_what_surrounds(before, core, behind);
}

/// Wherever in a string a text is cut, what is left of it once it is stripped is the
/// text before the string, its quotation mark, and the beginning of the string that
/// writes whole characters. Outside a string only a backslash that no other completes
/// is stripped.
pub proof fn stripping_keeps_whole_characters(
    head: Seq<char>,
    body: Seq<char>,
    m: int,
    plain: Seq<char>,
)
    requires
        !scanned(head).inside,
        is_closed(body),
        0 <= m <= body.len(),
        !scanned(plain).inside,
    ensures
        without_incomplete_escape(head + "\""@ + body.take(m)) == head + "\""@ + body.take(
            whole_len(body, m),
        ),
        plain.len() == 0 || plain.last() != '\\' ==> {
            &&& without_incomplete_escape(plain) == plain
            &&& without_incomplete_escape(plain.push('\\')) == plain
            &&& without_incomplete_escape(plain.push('\\').push('\\')) == plain.push('\\').push(
                '\\',
            )
        },
{
    dropping_what_is_open_cuts_in_the_string(head, body, m);
    let one = plain.push('\\');
    let two = one.push('\\');
    assert(one.drop_last() =~= plain);
    assert(two.drop_last() =~= one);
    assert(scanned(one) == crate::json::scan_char(scanned(plain), '\\'));
    assert(scanned(two) == crate::json::scan_char(scanned(one), '\\'));
    if plain.len() == 0 || plain.last() != '\\' {
        assert(trailing_backslashes(plain) == 0);
        assert(trailing_backslashes(one) == 1);
        assert(trailing_backslashes(two) == 2);
    }
}

/// The backslashes at the end of a text are counted one by one.
pub proof fn backslashes_are_counted(s: Seq<char>, c: char)
    ensures
        trailing_backslashes(Seq::empty()) == 0,
        trailing_backslashes(s.push('\\')) == trailing_backslashes(s) + 1,
        c != '\\' ==> trailing_backslashes(s.push(c)) == 0,
{
    assert(s.push('\\').drop_last() =~= s);
}

/// Behind the first place where a marker stands in a message, in whatever letter case,
/// the first number is read. Where the marker does not stand there, none is.
pub proof fn the_number_behind_a_marker_is_read(
    before: Seq<char>,
    written: Seq<char>,
    rest: Seq<char>,
    marker: Seq<char>,
    message: Seq<char>,
)
    requires
        lowered(written) == lowered(marker),
        forall|j: int|
            0 <= j < before.len() ==> !#[trigger] occurs_at(
                lowered(before + written + rest),
                lowered(marker),
                j,
            ),
    ensures
        number_after(before + written + rest, marker) == first_u64(rest),
        !contains(lowered(message), lowered(marker)) ==> number_after(message, marker) is None,
{
    let whole = before + written + rest;
    let lower = lowered(whole);
    let at = before.len() as int;
    assert(written.len() == lowered(written).len());
    assert(marker.len() == lowered(marker).len());
    assert(lower.subrange(at, at + marker.len()) =~= lowered(written));
    assert(occurs_at(lower, lowered(marker), at));
    find_is_first(lower, lowered(marker), 0);
    assert(whole.skip(at + marker.len()) =~= rest);
    find_is_first(lowered(message), lowered(marker), 0);
}

/// A message that a prompt is too long tells its number of tokens behind one of these
/// words. Of those that a number follows the first in this order counts: the opening
/// words, `resulted in` where the message speaks of the maximum context length,
/// `requested`, `prompt_tokens=`, and `input token count`.
pub proof fn the_number_of_tokens_is_told_so(message: Seq<char>, rest: Seq<char>)
    ensures
        first_u64(rest) is Some ==> prompt_tokens("prompt is too long: "@ + rest) == first_u64(
            rest,
        ),
        !starts_with(message, "prompt is too long: "@) ==> {
            let tokens = prompt_tokens(message);
            let resulted = number_after(message, "resulted in"@);
            let requested = number_after(message, "requested"@);
            let prompt = number_after(message, "prompt_tokens="@);
            let is_maximum = contains(lowered(message), "maximum context length"@);
            &&& is_maximum && resulted is Some ==> tokens == resulted
            &&& !(is_maximum && resulted is Some) && requested is Some ==> tokens == requested
            &&& !(is_maximum && resulted is Some) && requested is None && prompt is Some
                ==> tokens == prompt
            &&& !(is_maximum && resulted is Some) && requested is None && prompt is None
                ==> tokens == number_after(message, "input token count"@)
        },
        starts_with(message, "prompt is too long: "@) && first_u64(
            message.skip("prompt is too long: "@.len() as int),
        ) is None ==> {
            let tokens = prompt_tokens(message);
            let resulted = number_after(message, "resulted in"@);
            let requested = number_after(message, "requested"@);
            let prompt = number_after(message, "prompt_tokens="@);
            let is_maximum = contains(lowered(message), "maximum context length"@);
            &&& is_maximum && resulted is Some ==> tokens == resulted
            &&& !(is_maximum && resulted is Some) && requested is Some ==> tokens == requested
            &&& !(is_maximum && resulted is Some) && requested is None && prompt is Some
                ==> tokens == prompt
            &&& !(is_maximum && resulted is Some) && requested is None && prompt is None
                ==> tokens == number_after(message, "input token count"@)
        },
{
    let legacy = "prompt is too long: "@;
    let whole = legacy + rest;
    assert(whole.subrange(0, legacy.len() as int) =~= legacy);
    assert(whole.skip(legacy.len() as int) =~= rest);
}

/// A message tells of an overflow exactly where it holds, in whatever letter case, one
/// of these phrases, or both of one of these pairs.
pub proof fn overflow_is_told_by_these_phrases(message: Seq<char>)
    ensures
        ({
            let holds = |phrase: Seq<char>| contains(lowered(message), phrase);
            let phrases = seq![
                "context_length_exceeded"@,
                "prompt is too long"@,
                "prompt too large"@,
                "maximum context length"@,
                "max context length"@,
            ];
            let pairs = seq![
                ("context window"@, "exceed"@),
                ("context window"@, "too long"@),
                ("context window"@, "too large"@),
                ("input token count"@, "exceed"@),
                ("prompt_tokens="@, "max_tokens="@),
                ("prompt tokens"@, "max tokens"@),
            ];
            is_overflow_message(message) <==> {
                ||| exists|k: int| 0 <= k < 5 && holds(#[trigger] phrases[k])
                ||| exists|k: int|
                    0 <= k < 6 && holds((#[trigger] pairs[k]).0) && holds(pairs[k].1)
            }
        }),
{
    let holds = |phrase: Seq<char>| contains(lowered(message), phrase);
    let phrases = seq![
        "context_length_exceeded"@,
        "prompt is too long"@,
        "prompt too large"@,
        "maximum context length"@,
        "max context length"@,
    ];
    let pairs = seq![
        ("context window"@, "exceed"@),
        ("context window"@, "too long"@),
        ("context window"@, "too large"@),
        ("input token count"@, "exceed"@),
        ("prompt_tokens="@, "max_tokens="@),
        ("prompt tokens"@, "max tokens"@),
    ];
    assert(holds(phrases[0]) || holds(phrases[1]) || holds(phrases[2]) || holds(phrases[3])
        || holds(phrases[4]) || (holds(pairs[0].0) && holds(pairs[0].1)) || (holds(pairs[1].0)
        && holds(pairs[1].1)) || (holds(pairs[2].0) && holds(pairs[2].1)) || (holds(pairs[3].0)
        && holds(pairs[3].1)) || (holds(pairs[4].0) && holds(pairs[4].1)) || (holds(pairs[5].0)
        && holds(pairs[5].1)) <==> is_overflow_message(message));
}

} // verus!
