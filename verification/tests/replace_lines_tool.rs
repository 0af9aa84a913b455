use local_mlx::diff::format_diff;
use local_mlx::line_mode::{location_line, run_line_mode};
use local_mlx::replace_lines_tool::{
    edit_mode, edit_title, find_matches, run_find_replace, Edit, EditMode, ReplaceLinesInput,
    ReplaceLinesTool,
};

fn line_input(path: &str, sl: u32, el: u32, t: &str) -> ReplaceLinesInput {
    ReplaceLinesInput {
        path: path.into(),
        find: None,
        replace: None,
        all: false,
        around: None,
        occurrence: None,
        start_line: Some(sl),
        end_line: Some(el),
        new_text: Some(t.to_string()),
    }
}

fn find_input(
    path: &str,
    f: &str,
    r: &str,
    all: bool,
    around: Option<&str>,
    occ: Option<u32>,
) -> ReplaceLinesInput {
    ReplaceLinesInput {
        path: path.into(),
        find: Some(f.to_string()),
        replace: Some(r.to_string()),
        all,
        around: around.map(|s| s.to_string()),
        occurrence: occ,
        start_line: None,
        end_line: None,
        new_text: None,
    }
}

fn run(input: ReplaceLinesInput, text: &str) -> Edit {
    ReplaceLinesTool::new("/root").run(&input, text)
}

#[test]
fn test_replace_single_line() {
    let edit = run(
        line_input("root/test.rs", 2, 2, "REPLACED"),
        "line1\nline2\nline3\n",
    );
    let res = edit.response.expect("ok");
    assert!(res.contains("Replaced lines 2-2"));
    assert_eq!(edit.new_text.as_deref(), Some("line1\nREPLACEDline3\n"));
    assert!(edit.save);
}

#[test]
fn test_replace_multiple_lines() {
    let edit = run(
        line_input("root/test.rs", 2, 4, "A\nB\n"),
        "line1\nline2\nline3\nline4\nline5\n",
    );
    let res = edit.response.expect("ok");
    assert!(res.contains("Replaced lines 2-4"));
    assert_eq!(edit.new_text.as_deref(), Some("line1\nA\nB\nline5\n"));
}

#[test]
fn test_replace_first_line() {
    let edit = run(
        line_input("root/test.rs", 1, 1, "NEW FIRST LINE"),
        "old\nline2\nline3\n",
    );
    let res = edit.response.expect("ok");
    assert!(res.contains("Replaced lines 1-1"));
    assert_eq!(
        edit.new_text.as_deref(),
        Some("NEW FIRST LINEline2\nline3\n")
    );
}

#[test]
fn test_find_replace_unique() {
    let edit = run(
        find_input(
            "root/test.rs",
            "return bar();",
            "return baz();",
            false,
            None,
            None,
        ),
        "fn foo() {\n    return bar();\n}\n",
    );
    let res = edit.response.expect("ok");
    assert!(res.contains("Replaced occurrence 1/1"));
    assert!(res.contains("- ") && res.contains("return bar();"));
    assert!(res.contains("+ ") && res.contains("return baz();"));
    assert_eq!(
        edit.new_text.as_deref(),
        Some("fn foo() {\n    return baz();\n}\n")
    );
    assert_eq!(
        res,
        "Replaced occurrence 1/1 of 'return bar();' at line 2 in root/test.rs\n\nDiff:\n\
         ```diff\n  fn foo() {\n-     return bar();\n+     return baz();\n  }\n```"
    );
}

#[test]
fn test_find_replace_multiple_feedback() {
    let edit = run(
        find_input("root/test.rs", "pass", "return None", false, None, None),
        "fn a() { pass }\nfn b() { pass }\nfn c() { pass }\n",
    );
    let err = edit.response.unwrap_err();
    assert!(err.contains("Found 3 matches"));
    assert!(err.contains("[1] line 1"));
    assert!(err.contains("[2] line 2"));
    assert!(err.contains("[3] line 3"));
    assert_eq!(edit.new_text, None);
}

#[test]
fn test_find_replace_occurrence() {
    let edit = run(
        find_input("root/test.rs", "pass", "return None", false, None, Some(2)),
        "fn a() { pass }\nfn b() { pass }\nfn c() { pass }\n",
    );
    let res = edit.response.expect("ok");
    assert!(res.contains("Replaced occurrence 2/3"));
    assert_eq!(
        edit.new_text.as_deref(),
        Some("fn a() { pass }\nfn b() { return None }\nfn c() { pass }\n")
    );
}

#[test]
fn test_find_replace_all() {
    let edit = run(
        find_input("root/test.rs", "pass", "done", true, None, None),
        "pass\nkeep\npass\npass\n",
    );
    let res = edit.response.expect("ok");
    assert!(res.contains("Replaced 3 occurrences"));
    assert_eq!(edit.new_text.as_deref(), Some("done\nkeep\ndone\ndone\n"));
}

#[test]
fn test_find_replace_with_around() {
    let edit = run(
        find_input(
            "root/test.rs",
            "pass",
            "return None",
            false,
            Some("fn c"),
            None,
        ),
        "fn a() { pass }\nfn b() { x() }\nfn c() { pass }\n",
    );
    let res = edit.response.expect("ok");
    assert!(res.contains("Replaced occurrence 1/1"));
    assert_eq!(
        edit.new_text.as_deref(),
        Some("fn a() { pass }\nfn b() { x() }\nfn c() { return None }\n")
    );
}

#[test]
fn test_find_replace_no_match() {
    let edit = run(
        find_input("root/test.rs", "nonsense", "x", false, None, None),
        "hello world\n",
    );
    assert!(edit.response.unwrap_err().contains("No match found"));
    assert_eq!(edit.new_text, None);
}

#[test]
fn answers_are_exact() {
    let input = find_input("p", "zz", "y", false, Some("ctx"), None);
    let edit = run_find_replace("a\n", "zz", "y", &input);
    assert_eq!(
        edit.response,
        Err("No match found for 'zz' with around 'ctx' in p".to_string())
    );
    let edit = run(find_input("p", "zz", "y", false, None, Some(1)), "a\n");
    assert_eq!(
        edit.response,
        Err("No match found for 'zz' in p".to_string())
    );
    let edit = run(find_input("p", "a", "y", false, None, Some(2)), "a\n");
    assert_eq!(
        edit.response,
        Err("Occurrence 2 is out of range (1 match)".to_string())
    );
    let edit = run(find_input("p", "a", "y", false, None, Some(9)), "a\na\n");
    assert_eq!(
        edit.response,
        Err("Occurrence 9 is out of range (2 matches)".to_string())
    );
    let edit = run(find_input("p", "a", "y", false, None, None), "x\na\nb\na");
    assert_eq!(
        edit.response,
        Err(
            "Found 2 matches for 'a' in p.\nOptions: `all: true` (replace all), \
             `occurrence` (pick one), or `around` (narrow scope).\n\nMatches:\n\
             \x20 [1] line 2:\n        x\n        a\n        b\n\n\
             \x20 [2] line 4:\n        b\n        a\n\n"
                .to_string()
        )
    );
    // The occurrences are counted from 1; 0 is taken for the first.
    let edit = run(find_input("p", "a", "y", false, None, Some(0)), "a\na\n");
    assert_eq!(edit.new_text.as_deref(), Some("y\na\n"));
}

#[test]
fn all_counts_every_replacement() {
    let edit = run(find_input("p", "a", "b", true, None, None), "a a\naa\n");
    assert!(edit
        .response
        .expect("ok")
        .starts_with("Replaced 4 occurrences of 'a' in p\n\nDiff:\n```diff\n- a a\n- aa\n+ b b\n+ bb\n```"));
    assert_eq!(edit.new_text.as_deref(), Some("b b\nbb\n"));
    let edit = run(find_input("p", "a", "b", true, None, None), "a\n");
    assert!(edit
        .response
        .expect("ok")
        .starts_with("Replaced 1 occurrence of 'a' in p"));
    // No two replacements overlap.
    let edit = run(find_input("p", "aa", "b", true, None, None), "aaaaa\n");
    assert!(edit.response.expect("ok").starts_with("Replaced 2 occurrences"));
    assert_eq!(edit.new_text.as_deref(), Some("bba\n"));
    // Only what `around` leaves is replaced.
    let edit = run(find_input("p", "a", "b", true, Some("x"), None), "x\na\n-\n-\na\n");
    assert!(edit.response.expect("ok").starts_with("Replaced 1 occurrence of 'a' in p"));
    assert_eq!(edit.new_text.as_deref(), Some("x\nb\n-\n-\na\n"));
    // The empty text stands between any two characters.
    let edit = run(find_input("p", "", "-", true, None, None), "ab");
    assert!(edit.response.expect("ok").starts_with("Replaced 3 occurrences"));
    assert_eq!(edit.new_text.as_deref(), Some("-a-b-"));
}

#[test]
fn a_text_is_found_character_for_character() {
    let edit = run(find_input("p", "  pass", "x", false, None, None), "pass\n");
    assert_eq!(
        edit.response,
        Err("No match found for '  pass' in p".to_string())
    );
    assert_eq!(edit.new_text, None);
    let edit = run(find_input("p", "  pass", "x", true, None, None), "pass\n");
    assert_eq!(edit.new_text, None);
    let edit = run(find_input("p", " pass ", "go", false, None, None), "x pass ;\n");
    assert_eq!(edit.new_text.as_deref(), Some("xgo;\n"));
}

#[test]
fn a_text_over_several_lines_is_found() {
    let edit = run(find_input("p", "a\nb", "z", false, None, None), "a\nb\nc\n");
    assert_eq!(edit.new_text.as_deref(), Some("z\nc\n"));
    let matches = find_matches("0\n1\n2\n3\n4\n", "1\n2", None);
    assert_eq!(matches.len(), 1);
    assert_eq!(matches[0].line, 2);
    assert_eq!(matches[0].start, 2);
    assert_eq!(matches[0].context, "0\n1\n2\n3");
    assert_eq!(find_matches("0\n1\n2\n3\n4\n", "1\n2", Some("3")).len(), 1);
    assert!(find_matches("0\n1\n2\n3\n4\n", "1\n2", Some("4")).is_empty());
}

#[test]
fn a_text_that_stands_twice_in_a_line_is_not_guessed() {
    let edit = run(find_input("p", "x", "y", false, None, None), "x = x\n");
    assert_eq!(
        edit.response,
        Err(
            "Found 2 matches for 'x' in p.\nOptions: `all: true` (replace all), \
             `occurrence` (pick one), or `around` (narrow scope).\n\nMatches:\n\
             \x20 [1] line 1:\n        x = x\n\n\
             \x20 [2] line 1:\n        x = x\n\n"
                .to_string()
        )
    );
    assert_eq!(edit.new_text, None);
    let edit = run(find_input("p", "x", "y", false, None, Some(2)), "x = x\n");
    assert!(edit.response.expect("ok").starts_with("Replaced occurrence 2/2 of 'x' at line 1"));
    assert_eq!(edit.new_text.as_deref(), Some("x = y\n"));
    // Occurrences that overlap are told apart too.
    let edit = run(find_input("p", "aa", "b", false, None, None), "aaa");
    assert!(edit.response.unwrap_err().starts_with("Found 2 matches"));
}

#[test]
fn matches_show_their_neighbours() {
    let matches = find_matches("a\r\nb\nc\nb", "b", None);
    assert_eq!(matches.len(), 2);
    assert_eq!((matches[0].index, matches[0].line), (1, 2));
    assert_eq!(matches[0].context, "a\nb\nc");
    assert_eq!((matches[1].index, matches[1].line), (2, 4));
    assert_eq!(matches[1].context, "c\nb");
    assert!(find_matches("", "b", None).is_empty());
    assert!(find_matches("a\n\nb", " ", None).is_empty());
    // With `around`, only what is near is left.
    let near = find_matches("b\n-\nx\nb\n", "b", Some("x"));
    assert_eq!(near.len(), 1);
    assert_eq!(near[0].line, 4);
}

#[test]
fn all_but_the_text_found_stays() {
    let edit = run(find_input("p", "a", "X", false, None, None), "a\n\n");
    assert_eq!(edit.new_text.as_deref(), Some("X\n\n"));
    let edit = run(find_input("p", "two", "2", false, None, None), "two\r\nb\r\n");
    assert_eq!(edit.new_text.as_deref(), Some("2\r\nb\r\n"));
    let edit = run(find_input("p", "b", "1\n2", false, None, None), "a\nb");
    assert_eq!(edit.new_text.as_deref(), Some("a\n1\n2"));
}

#[test]
fn diffs_show_what_changes() {
    assert_eq!(format_diff("", ""), "```diff\n```");
    assert_eq!(format_diff("a\nb\n", "a\nb\n"), "```diff\n  b\n```");
    assert_eq!(
        format_diff("a\nb\nc\nd\n", "a\nx\ny\nd\n"),
        "```diff\n  a\n- b\n- c\n+ x\n+ y\n  d\n```"
    );
    assert_eq!(format_diff("a\n", "a\nb\n"), "```diff\n  a\n+ b\n```");
    assert_eq!(format_diff("x\nb\n", "b\n"), "```diff\n- x\n  b\n```");
}

#[test]
fn line_numbers_are_brought_into_range() {
    let edit = run_line_mode("a\nb", 0, 0, "x", "p");
    assert_eq!(edit.response, Ok("Replaced lines 1-1 in p".to_string()));
    assert_eq!(edit.new_text.as_deref(), Some("xb"));
    let edit = run_line_mode("a\nb", 7, 3, "x\n", "p");
    assert_eq!(edit.response, Ok("Replaced lines 2-2 in p".to_string()));
    assert_eq!(edit.new_text.as_deref(), Some("a\nx\n"));
    let edit = run_line_mode("", 1, 9, "", "p");
    assert_eq!(edit.response, Ok("Replaced lines 1-1 in p".to_string()));
    assert_eq!(edit.new_text.as_deref(), Some(""));
    assert_eq!(location_line(0), 0);
    assert_eq!(location_line(42), 41);
}

#[test]
fn lines_are_replaced_by_the_new_text_as_it_is() {
    let edit = run_line_mode("a\nb\nc\n", 2, 2, "", "p");
    assert_eq!(edit.new_text.as_deref(), Some("a\nc\n"));
    let edit = run_line_mode("a\nb\nc\n", 2, 3, "x\n\ny\n", "p");
    assert_eq!(edit.new_text.as_deref(), Some("a\nx\n\ny\n"));
    let edit = run_line_mode("a\nb", 2, 2, "x", "p");
    assert_eq!(edit.new_text.as_deref(), Some("a\nx"));
}

#[test]
fn a_text_to_find_needs_one_to_put_in_its_place() {
    let mut input = line_input("root/test.rs", 1, 1, "x");
    input.find = Some("a".to_string());
    input.end_line = None;
    let edit = run(input, "a\n");
    assert_eq!(
        edit.response,
        Err("Either 'find' + 'replace' or 'start_line' + 'new_text' must be provided".to_string())
    );
    assert_eq!(edit.new_text, None);
    assert!(!edit.save);
}

#[test]
fn the_mode_follows_from_what_is_given() {
    let mut input = line_input("p", 3, 5, "t");
    assert_eq!(
        edit_mode(&input),
        Ok(EditMode::Lines {
            start_line: 3,
            end_line: 5
        })
    );
    input.end_line = None;
    assert_eq!(
        edit_mode(&input),
        Ok(EditMode::Lines {
            start_line: 3,
            end_line: 3
        })
    );
    input.new_text = None;
    assert_eq!(
        run(input.clone(), "a").response,
        Err("'new_text' must be provided when using line mode".to_string())
    );
    input.start_line = None;
    input.find = Some("a".to_string());
    assert_eq!(
        run(input.clone(), "a").response,
        Err("Either 'find' + 'replace' or 'start_line' + 'new_text' must be provided".to_string())
    );
    input.replace = Some("b".to_string());
    assert_eq!(edit_mode(&input), Ok(EditMode::FindReplace));
}

#[test]
fn titles_name_the_file_and_the_edit() {
    let tool = ReplaceLinesTool::new(());
    assert_eq!(
        tool.initial_title(Ok(find_input("root/test.rs", " a ", "b", false, None, None))),
        "test.rs: \"a\" \u{2192} \"b\""
    );
    assert_eq!(
        tool.initial_title(Ok(line_input("root/test.rs", 4, 7, ""))),
        "test.rs:4-7"
    );
    assert_eq!(
        tool.initial_title(Ok(line_input("root/a:b.rs", 4, 7, ""))),
        "a:b.rs:4-7"
    );
    assert_eq!(
        tool.initial_title(Ok(line_input("..", 4, 7, ""))),
        "..:4-7"
    );
    let mut input = line_input("root/test.rs", 4, 7, "");
    input.new_text = None;
    assert_eq!(tool.initial_title(Ok(input)), "Edit file");
    assert_eq!(
        tool.initial_title(Err(serde_json::Value::Null)),
        "Edit file"
    );
    let long = "0123456789012345678901234567890";
    assert_eq!(
        edit_title(&find_input("p", long, "b", false, None, None), "f"),
        "f: \"0123456789012345678901234567\u{2026}\" \u{2192} \"b\""
    );
    assert_eq!(
        edit_title(&find_input("p", &long[..30], "b", false, None, None), "f"),
        "f: \"012345678901234567890123456789\" \u{2192} \"b\""
    );
}
