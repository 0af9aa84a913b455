use local_mlx::lines::{join_strings, lines_of};
use local_mlx::number::{decimal_string, first_u64_of};
use local_mlx::rows::rows_of;
use local_mlx::search::{
    contains_text, ends_with_text, find_chars, replace_text, starts_with_text,
};
use local_mlx::text::{
    chars_of, lower_char, lower_chars, same_str, string_of, trim_chars, trim_end_chars,
    white_space,
};

#[test]
fn white_space_is_what_unicode_says() {
    for n in 0..=0x10ffff {
        if let Some(c) = char::from_u32(n) {
            assert_eq!(white_space(c), c.is_whitespace(), "{:x}", n);
            assert_eq!(lower_char(c), c.to_ascii_lowercase(), "{:x}", n);
        }
    }
}

#[test]
fn trimming_agrees_with_the_standard_library() {
    for s in ["", " ", "a", " a b\t", "\u{2003}x\u{85}", "\r\n y \n"] {
        let chars = chars_of(s);
        assert_eq!(string_of(trim_chars(&chars)), s.trim());
        assert_eq!(string_of(trim_end_chars(&chars)), s.trim_end());
        let once = chars_of(s.trim());
        assert_eq!(string_of(trim_chars(&once)), s.trim());
    }
}

#[test]
fn lines_agree_with_the_standard_library() {
    for s in ["", "\n", "a", "a\n", "a\r\nb\r", "\r\n\n\rx\n\n", "a\r\r\nb"] {
        let ours: Vec<String> = lines_of(&chars_of(s))
            .iter()
            .map(|line| string_of(line))
            .collect();
        let theirs: Vec<&str> = s.lines().collect();
        assert_eq!(ours, theirs, "{:?}", s);
        let rows: Vec<String> = rows_of(&chars_of(s)).iter().map(|row| string_of(row)).collect();
        let split: Vec<&str> = s.split('\n').collect();
        assert_eq!(rows, split, "{:?}", s);
    }
}

#[test]
fn searching_and_replacing_agree_with_the_standard_library() {
    let texts = ["", "a", "aa", "aaa", "abcabc", "x\u{e4}y\u{e4}", "ababab"];
    let patterns = ["", "a", "aa", "ab", "\u{e4}", "abc", "zz"];
    for s in texts {
        let chars = chars_of(s);
        for p in patterns {
            let pattern = chars_of(p);
            assert_eq!(contains_text(&chars, p), s.contains(p));
            assert_eq!(starts_with_text(&chars, p), s.starts_with(p));
            assert_eq!(ends_with_text(&chars, p), s.ends_with(p));
            assert_eq!(
                find_chars(&chars, &pattern),
                s.find(p).map(|i| s[..i].chars().count())
            );
            for r in ["", "-", "aab"] {
                let out = replace_text(s, p, r);
                assert_eq!(out, s.replace(p, r));
                let expected = s.chars().count() as i64
                    + s.matches(p).count() as i64
                        * (r.chars().count() as i64 - p.chars().count() as i64);
                assert_eq!(out.chars().count() as i64, expected);
            }
        }
    }
}

#[test]
fn numbers_are_written_and_read_back() {
    for n in [0u64, 7, 10, 99, 100, 65536, u64::MAX] {
        let s = decimal_string(n as u128);
        assert_eq!(s, n.to_string());
        assert_eq!(first_u64_of(&chars_of(&s)), Some(n));
    }
    assert_eq!(decimal_string(u128::MAX), u128::MAX.to_string());
}

#[test]
fn strings_are_joined_and_compared() {
    let parts = vec!["a".to_string(), "".to_string(), "b".to_string()];
    assert_eq!(join_strings(&parts, ", "), "a, , b");
    assert_eq!(join_strings(&Vec::new(), ", "), "");
    assert!(same_str("a\u{e4}", "a\u{e4}"));
    assert!(!same_str("a", "ab"));
    assert!(!same_str("ab", "aB"));
    assert_eq!(string_of(&lower_chars(&chars_of("A\u{c4}z"))), "a\u{c4}z");
}
