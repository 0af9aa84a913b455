use local_mlx::util::{
    fix_streamed_json, is_context_window_overflow_message, parse_first_u64, parse_prompt_too_long,
    parse_tool_arguments, parse_u64_after_case_insensitive, streamed_string,
    strip_trailing_incomplete_escape,
};

#[test]
fn test_fix_streamed_json_strips_incomplete_escape() {
    let fixed = fix_streamed_json(r#"{"text": "hello\"#);
    let parsed: serde_json::Value = serde_json::from_str(&fixed).expect("valid json");
    assert_eq!(parsed["text"], "hello");
}

#[test]
fn test_fix_streamed_json_preserves_complete_escape() {
    let fixed = fix_streamed_json(r#"{"text": "hello\\"#);
    let parsed: serde_json::Value = serde_json::from_str(&fixed).expect("valid json");
    assert_eq!(parsed["text"], "hello\\");
}

#[test]
fn test_fix_streamed_json_strips_escape_after_complete_escape() {
    let fixed = fix_streamed_json(r#"{"text": "hello\\\"#);
    let parsed: serde_json::Value = serde_json::from_str(&fixed).expect("valid json");
    assert_eq!(parsed["text"], "hello\\");
}

#[test]
fn test_fix_streamed_json_no_escape_at_end() {
    let fixed = fix_streamed_json(r#"{"text": "hello"#);
    let parsed: serde_json::Value = serde_json::from_str(&fixed).expect("valid json");
    assert_eq!(parsed["text"], "hello");
}

#[test]
fn test_fix_streamed_json_newline_escape_boundary() {
    let fixed = fix_streamed_json(r#"{"text": "line1\"#);
    let parsed: serde_json::Value = serde_json::from_str(&fixed).expect("valid json");
    assert_eq!(parsed["text"], "line1");

    let fixed = fix_streamed_json(r#"{"text": "line1\nline2"#);
    let parsed: serde_json::Value = serde_json::from_str(&fixed).expect("valid json");
    assert_eq!(parsed["text"], "line1\nline2");
}

#[test]
fn test_fix_streamed_json_incremental_delta_correctness() {
    let chunk1 = r#"{"replacement_text": "fn foo() {\"#;
    let fixed1 = fix_streamed_json(chunk1);
    let parsed1: serde_json::Value = serde_json::from_str(&fixed1).expect("valid json");
    let text1 = parsed1["replacement_text"].as_str().expect("string");
    assert_eq!(text1, "fn foo() {");

    let chunk2 = r#"{"replacement_text": "fn foo() {\n    return bar;\n}"}"#;
    let fixed2 = fix_streamed_json(chunk2);
    let parsed2: serde_json::Value = serde_json::from_str(&fixed2).expect("valid json");
    let text2 = parsed2["replacement_text"].as_str().expect("string");
    assert_eq!(text2, "fn foo() {\n    return bar;\n}");

    let delta = &text2[text1.len()..];
    assert_eq!(delta, "\n    return bar;\n}");
}

#[test]
fn test_parse_prompt_too_long_openai_max_context_message() {
    let message =
        "This model's maximum context length is 65536 tokens. However, your messages resulted in 77490 tokens.";
    assert_eq!(parse_prompt_too_long(message), Some(77490));
}

#[test]
fn test_parse_prompt_too_long_vllm_style_message() {
    let message = "request=abc prompt_tokens=77490 tokens_to_prefill=77490 max_tokens=65536";
    assert_eq!(parse_prompt_too_long(message), Some(77490));
}

#[test]
fn test_is_context_window_overflow_message_detects_common_shapes() {
    assert!(is_context_window_overflow_message(
        "Error: context_length_exceeded for this request"
    ));
    assert!(is_context_window_overflow_message(
        "input token count (77490) exceeds max context length (65536)"
    ));
    assert!(is_context_window_overflow_message(
        "prompt_tokens=77490 max_tokens=65536"
    ));
    assert!(!is_context_window_overflow_message(
        "invalid request format: missing field messages"
    ));
}

#[test]
fn the_other_ways_to_say_too_long_are_understood() {
    assert_eq!(
        parse_prompt_too_long("prompt is too long: 12345 tokens > 8192"),
        Some(12345)
    );
    assert_eq!(
        parse_prompt_too_long("You REQUESTED 77490 tokens"),
        Some(77490)
    );
    assert_eq!(
        parse_prompt_too_long("Input token count (77490) exceeds max context length (65536)"),
        Some(77490)
    );
    // Without the phrase before it, "resulted in" tells nothing.
    assert_eq!(parse_prompt_too_long("this resulted in 3 errors"), None);
    assert_eq!(parse_prompt_too_long(""), None);
    // A prefix without a number leaves the other ways open.
    assert_eq!(
        parse_prompt_too_long("prompt is too long: you requested many"),
        None
    );
    // Too large for 64 bits.
    assert_eq!(
        parse_prompt_too_long("prompt is too long: 18446744073709551616"),
        None
    );
    assert_eq!(
        parse_prompt_too_long("prompt is too long: 18446744073709551615"),
        Some(u64::MAX)
    );
}

#[test]
fn overflow_is_seen_in_any_letter_case() {
    for message in [
        "PROMPT IS TOO LONG",
        "Prompt Too Large",
        "Maximum context length",
        "max CONTEXT length",
        "the context window is too long",
        "context window exceeded",
        "Context Window too large",
        "prompt tokens 9, max tokens 4",
    ] {
        assert!(is_context_window_overflow_message(message), "{}", message);
    }
    assert!(!is_context_window_overflow_message("context window"));
    assert!(!is_context_window_overflow_message("prompt_tokens=3"));
}

#[test]
fn numbers_are_read_where_they_first_stand() {
    assert_eq!(parse_first_u64("abc 0012def 7"), Some(12));
    assert_eq!(parse_first_u64("none"), None);
    assert_eq!(parse_first_u64("\u{0663}"), None);
    assert_eq!(
        parse_u64_after_case_insensitive("1 \u{e4} Marker: 2", "mARKER"),
        Some(2)
    );
    assert_eq!(parse_u64_after_case_insensitive("1 marker", "marker"), None);
    assert_eq!(parse_u64_after_case_insensitive("1 2", "absent"), None);
}

#[test]
fn stripping_drops_an_escape_that_is_not_complete() {
    assert_eq!(
        strip_trailing_incomplete_escape(r#"{"text": "a\u00"#),
        r#"{"text": "a"#
    );
    assert_eq!(strip_trailing_incomplete_escape(r#""a\u"#), r#""a"#);
    assert_eq!(strip_trailing_incomplete_escape(r#""a\u00e"#), r#""a"#);
    assert_eq!(
        strip_trailing_incomplete_escape(r#""a\u00e4"#),
        r#""a\u00e4"#
    );
    assert_eq!(strip_trailing_incomplete_escape(r#""a\\u00"#), r#""a\\u00"#);
    assert_eq!(strip_trailing_incomplete_escape(r#""a\"#), r#""a"#);
    assert_eq!(strip_trailing_incomplete_escape(r#"\u00"#), r#"\u00"#);
    // A surrogate pair that is not complete writes nothing.
    for open in [r"\ud83d", r"\ud83d\", r"\ud83d\u", r"\ud83d\ude0", r"\uDBFF"] {
        let text = format!("\"a{}", open);
        assert_eq!(strip_trailing_incomplete_escape(&text), "\"a", "{}", open);
        assert_eq!(fix_streamed_json(&text), "\"a\"");
    }
    let pair = r#""a\ud83d\ude00"#;
    assert_eq!(strip_trailing_incomplete_escape(pair), pair);
    let backslash = r#""a\\ud83d"#;
    assert_eq!(strip_trailing_incomplete_escape(backslash), backslash);
    assert_eq!(strip_trailing_incomplete_escape(r#""a\ud7ff"#), r#""a\ud7ff"#);
    assert_eq!(strip_trailing_incomplete_escape(""), "");
    assert_eq!(strip_trailing_incomplete_escape("\\"), "");
    assert_eq!(strip_trailing_incomplete_escape("\\\\"), "\\\\");
    assert_eq!(strip_trailing_incomplete_escape("a\u{e4}\\\\\\"), "a\u{e4}\\\\");
    assert_eq!(strip_trailing_incomplete_escape("\\n"), "\\n");
    let text = r#"{"a": "b\\\"c\u00e4\n\ud83d\ude00"#;
    for i in 0..text.len() {
        for j in i..=text.len() {
            let early = strip_trailing_incomplete_escape(&text[..i]);
            let late = strip_trailing_incomplete_escape(&text[..j]);
            assert!(late.starts_with(early));
        }
    }
}

#[test]
fn streamed_json_is_completed() {
    assert_eq!(fix_streamed_json(r#"{"a": [1, 2"#), r#"{"a": [1, 2]}"#);
}

#[test]
fn blank_tool_arguments_are_the_empty_object() {
    for blank in ["", "  ", "\n\t \u{3000}"] {
        let value = parse_tool_arguments(blank).expect("the empty object");
        assert_eq!(value, serde_json::Value::Object(serde_json::Map::new()));
    }
    let value = parse_tool_arguments(" {} ").expect("the empty object");
    assert_eq!(value, serde_json::Value::Object(serde_json::Map::new()));
}

#[test]
fn tool_arguments_are_read_as_json() {
    let value = parse_tool_arguments(" {\"a\": 3}\n").expect("an object");
    assert_eq!(value["a"], 3);
    let error = parse_tool_arguments("{\"a\"").expect_err("not JSON");
    let told = serde_json::from_str::<serde_json::Value>("{\"a\"").expect_err("not JSON");
    assert_eq!(error.message, told.to_string());
}

#[test]
fn a_streamed_string_is_always_a_prefix_of_the_final_one() {
    let whole = r#"{"t": "a\"b\\cA\n, \\\" end"}"#;
    let value: serde_json::Value = serde_json::from_str(whole).expect("valid json");
    let expected = value["t"].as_str().expect("string");
    let opening = whole.find("\"a").expect("opening") + 1;
    let mut longest = 0;
    for end in opening..whole.len() {
        let fixed = fix_streamed_json(&whole[..end]);
        let shown: serde_json::Value = serde_json::from_str(&fixed).expect("valid json");
        let text = shown["t"].as_str().expect("string");
        assert!(expected.starts_with(text), "{} of {}", text, expected);
        assert!(text.len() >= longest);
        longest = text.len();
    }
    assert_eq!(longest, expected.len());
    assert_eq!(fix_streamed_json(r#"["\u00"#), r#"[""]"#);
    assert_eq!(fix_streamed_json(r#"{"a": "b\"#), r#"{"a": "b"}"#);
}

#[test]
fn a_streamed_string_is_read_as_far_as_it_has_come() {
    let whole = r#"{"n": [1, {"x": null}], "t": "a\"b\\\u00e4\n\/\ud83d\ude00z", "u": 2}"#;
    let value: serde_json::Value = serde_json::from_str(whole).expect("valid json");
    let expected = value["t"].as_str().expect("string");
    let opening = whole.find("\"a").expect("opening") + 1;
    let closing = whole.find("\", \"u\"").expect("closing");
    let mut longest = 0;
    for end in opening..=closing {
        let text = streamed_string(&whole[..end], "t").expect("string");
        assert!(expected.starts_with(&text), "{} of {}", text, expected);
        assert!(text.len() >= longest);
        longest = text.len();
    }
    assert_eq!(longest, expected.len());
    assert_eq!(streamed_string(whole, "t").as_deref(), Some(expected));
    assert_eq!(streamed_string(whole, "n"), None);
    assert_eq!(streamed_string(whole, "z"), None);
    assert_eq!(streamed_string("{]", "t"), None);
    // Of members with one key the last counts, also where it is only arriving.
    assert_eq!(
        streamed_string(r#"{"t": "a", "\u0074" : "b"#, "t").as_deref(),
        Some("b")
    );
    // Members of inner objects do not.
    assert_eq!(streamed_string(r#"{"x": {"t": "b"#, "t"), None);
}

#[test]
fn an_error_tells_what_is_wrong_and_where() {
    let error = parse_tool_arguments("{\n  x").unwrap_err();
    let expected = serde_json::from_str::<serde_json::Value>("{\n  x").unwrap_err();
    assert_eq!(error.message, expected.to_string());
    assert_eq!(error.error.line(), expected.line());
    assert_eq!(error.error.column(), expected.column());
    assert_eq!(error.error.classify(), expected.classify());
}

#[test]
fn a_streamed_string_may_hold_dollar_signs() {
    let whole = r#"{"$id": "$x", "command": "echo $HOME ${PATH} $", "n": 1}"#;
    let expected = "echo $HOME ${PATH} $";
    let opening = whole.find("\"echo").expect("opening") + 1;
    let closing = whole.find("\", \"n\"").expect("closing");
    let mut longest = 0;
    for end in opening..=closing {
        let text = streamed_string(&whole[..end], "command").expect("string");
        assert!(expected.starts_with(&text), "{} of {}", text, expected);
        assert!(text.len() >= longest);
        longest = text.len();
    }
    assert_eq!(longest, expected.len());
    assert_eq!(
        streamed_string(r#"{"$id": "$"#, "$id").as_deref(),
        Some("$")
    );
    assert_eq!(
        streamed_string(r#"{"$id": "$", "t": "b"#, "t").as_deref(),
        Some("b")
    );
    // An inner object that begins with a reserved key is no obstacle.
    assert_eq!(
        streamed_string(
            r#"{"r": {"$serde_json::private::RawValue": "[1]"}, "t": "$b"#,
            "t"
        )
        .as_deref(),
        Some("$b")
    );
    // A reserved key at the beginning leaves nothing to read.
    assert_eq!(
        streamed_string(
            r#"{"$serde_json::private::RawValue": "[1"#,
            "$serde_json::private::RawValue"
        ),
        None
    );
}

#[test]
fn complete_json_is_left_as_it_is() {
    for json in [
        r#"{"a": [1, {"b": "x\"y\\"}, -0.5e+3], "c": {}} "#,
        r#"["tru", null, false]"#,
        r#""😀""#,
        " true\n",
        "-12",
        "[]",
    ] {
        assert_eq!(fix_streamed_json(json), json);
    }
}
