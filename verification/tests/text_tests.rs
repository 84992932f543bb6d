use uninstall::text::{
    chars_of, concatenate, ends_with, eq_ignore_ascii_case, lines, replace, same_chars, split_chars,
    starts_with, string_of, to_ascii_uppercase, trim,
};

fn strs(v: &[String]) -> Vec<&str> {
    v.iter().map(|s| s.as_str()).collect()
}

#[test]
fn lines_split_like_str_lines() {
    assert_eq!(strs(&lines("a\r\nb\n\nc")), vec!["a", "b", "", "c"]);
    assert_eq!(strs(&lines("x\n")), vec!["x"]);
    assert_eq!(strs(&lines("x\r")), vec!["x\r"]);
    assert_eq!(strs(&lines("\n")), vec![""]);
    assert!(lines("").is_empty());
    for s in ["a\r\nb\n\nc", "x\n", "x\r", "\n", "", "one\ntwo\r\n"] {
        let ours = lines(s);
        let std_lines: Vec<&str> = s.lines().collect();
        assert_eq!(strs(&ours), std_lines);
    }
}

#[test]
fn lines_hold_no_line_feed() {
    for l in lines("a\nb\r\n\r\nc\n") {
        assert!(!l.contains('\n'));
    }
}

#[test]
fn split_keeps_empty_pieces() {
    let chars = chars_of("a:b::c");
    assert_eq!(strs(&split_chars(&chars, ':')), vec!["a", "b", "", "c"]);
    assert_eq!(strs(&split_chars(&chars_of(""), ':')), vec![""]);
    assert_eq!(strs(&split_chars(&chars_of(":"), ':')), vec!["", ""]);
}

#[test]
fn split_then_join_gives_input_back() {
    for s in ["/bin:/usr/bin", "", ":", "a::b:"] {
        let pieces = split_chars(&chars_of(s), ':');
        assert_eq!(strs(&pieces).join(":"), s);
        for p in &pieces {
            assert!(!p.contains(':'));
        }
    }
}

#[test]
fn trim_removes_unicode_white_space() {
    assert_eq!(trim("  yes\n"), "yes");
    assert_eq!(trim("\u{3000}x y\u{a0}\t"), "x y");
    assert_eq!(trim(" \r\n "), "");
    assert_eq!(trim("a"), "a");
    for s in ["  yes\n", "\u{3000}x y\u{a0}\t", " ", "\u{85}z\u{2028}"] {
        assert_eq!(trim(s), s.trim());
        assert_eq!(trim(&trim(s)), trim(s));
    }
}

#[test]
fn trim_ignores_padding() {
    assert_eq!(trim(" \t yes \n"), trim("yes"));
    assert_eq!(trim("\u{2003} no\u{205f}"), trim(" no"));
}

#[test]
fn ascii_case_comparison() {
    assert!(eq_ignore_ascii_case(&chars_of("Firefox"), &chars_of("fIREFOX")));
    assert!(!eq_ignore_ascii_case(&chars_of("Firefox"), &chars_of("Firefo")));
    assert!(!eq_ignore_ascii_case(&chars_of("\u{c9}"), &chars_of("\u{e9}")));
    assert!(eq_ignore_ascii_case(&chars_of(""), &chars_of("")));
    let (a, b, c) = (chars_of("GIMP"), chars_of("gimp"), chars_of("GiMp"));
    assert!(eq_ignore_ascii_case(&a, &a));
    assert!(eq_ignore_ascii_case(&b, &a));
    assert!(eq_ignore_ascii_case(&a, &c) && eq_ignore_ascii_case(&b, &c));
}

#[test]
fn uppercase_only_ascii() {
    assert_eq!(to_ascii_uppercase("home"), "HOME");
    assert_eq!(to_ascii_uppercase("p\u{e4}th_1"), "P\u{e4}TH_1");
}

#[test]
fn replace_one_character() {
    assert_eq!(replace("Visual Studio Code", ' ', '-'), "Visual-Studio-Code");
    assert_eq!(replace("", ' ', '-'), "");
}

#[test]
fn prefixes_and_suffixes() {
    let line = chars_of("Exec=firefox %u");
    assert!(starts_with(&line, &chars_of("Exec=")));
    assert!(!starts_with(&line, &chars_of("Icon=")));
    assert!(!starts_with(&chars_of("Ex"), &chars_of("Exec=")));
    assert!(ends_with(&chars_of("a.desktop"), &chars_of(".desktop")));
    assert!(!ends_with(&chars_of("desktop"), &chars_of(".desktop")));
    assert!(same_chars(&chars_of("abc"), &chars_of("abc")));
    assert!(!same_chars(&chars_of("abc"), &chars_of("abd")));
}

#[test]
fn building_strings() {
    assert_eq!(concatenate("/home/u", "/.local"), "/home/u/.local");
    let chars = chars_of("h\u{e9}llo");
    assert_eq!(string_of(&chars, 1, 4), "\u{e9}ll");
    assert_eq!(string_of(&chars, 2, 2), "");
}
