use fnirsi::text::{
    contains, copied, digit, eq_ignore_ascii_case, has_letter, is_blank, joined, lines_of,
    push_decimal, push_hex2, push_hex4, remove_all, trim,
};

#[test]
fn numbers_are_written_as_the_formatter_does() {
    for n in [0u64, 7, 10, 99, 100, 48_151, u64::MAX] {
        let mut out = "n=".to_string();
        push_decimal(&mut out, n);
        assert_eq!(out, format!("n={n}"));
    }
    for v in 0..=255u8 {
        let mut out = String::new();
        push_hex2(&mut out, v);
        assert_eq!(out, format!("{v:02X}"));
    }
    for v in [0u16, 0x003A, 0x2E3C, 0xFFFF] {
        let mut out = String::new();
        push_hex4(&mut out, v);
        assert_eq!(out, format!("{v:04X}"));
    }
    assert_eq!(digit(11), "B");
}

#[test]
fn parts_are_found_as_the_standard_library_does() {
    let texts = ["", "c1", "fnirsi c1", "cc1", "C1", "c\u{E9}1", "1c"];
    for hay in texts {
        for needle in ["", "c1", "1", "fnb", "\u{E9}"] {
            assert_eq!(contains(hay, needle), hay.contains(needle), "{hay} {needle}");
        }
    }
}

#[test]
fn ends_are_trimmed_as_the_standard_library_does() {
    for s in ["", " ", " a", "a ", "\t a b \n", "\u{3000}\u{E9}\u{A0}", "\u{200B}"] {
        assert_eq!(trim(s), s.trim());
        assert_eq!(is_blank(s), s.trim().is_empty());
    }
}

#[test]
fn letters_are_recognized() {
    assert!(has_letter("30s"));
    assert!(has_letter("\u{E9}"));
    assert!(!has_letter("30 . - \u{20AC}"));
    assert!(!has_letter(""));
}

#[test]
fn occurrences_are_removed_as_the_standard_library_does() {
    let cases = [
        ("Recording... 1.0s / 5.0s", "Recording... "),
        ("Recording...", "Recording... "),
        ("aaaa", "aa"),
        ("aaa", "aa"),
        ("xaxbx", "x"),
        ("", "a"),
        ("ababab", "aba"),
    ];
    for (s, part) in cases {
        assert_eq!(remove_all(s, part), s.replace(part, ""));
    }
}

#[test]
fn ascii_case_is_ignored() {
    assert!(eq_ignore_ascii_case("PaRq", "parq"));
    assert!(!eq_ignore_ascii_case("parq", "par"));
    assert!(!eq_ignore_ascii_case("\u{C9}", "\u{E9}"));
    assert!(eq_ignore_ascii_case("AZ@[", "az@["));
    assert!(!eq_ignore_ascii_case("@", "`"));
}

#[test]
fn texts_are_joined_and_copied() {
    assert_eq!(joined("a", "b"), "ab");
    assert_eq!(copied(&Some("x".to_string())).as_deref(), Some("x"));
    assert_eq!(copied(&None), None);
}

#[test]
fn lines_are_split_as_the_standard_library_does() {
    let cases = [
        "",
        "\n",
        "a",
        "a\nb",
        "a\r\nb\r\n",
        "a\rb\n\r\r\n\r",
        "\u{e9}\n\n\u{1f600}\r",
    ];
    for case in cases {
        let expected: Vec<String> = std::io::BufRead::lines(case.as_bytes())
            .map(|line| line.unwrap())
            .collect();
        assert_eq!(lines_of(case), expected, "{case:?}");
    }
}

#[test]
fn white_space_is_that_of_25_characters() {
    let white: Vec<u32> = (0..=0x10FFFFu32)
        .filter(|code| char::from_u32(*code).is_some_and(|c| is_blank(&c.to_string())))
        .collect();
    assert_eq!(white.len(), 25);
    assert_eq!(&white[..8], &[9, 10, 11, 12, 13, 0x20, 0x85, 0xA0]);
    assert_eq!(white[8], 0x1680);
    assert_eq!(&white[9..20], &(0x2000..=0x200A).collect::<Vec<u32>>()[..]);
    assert_eq!(&white[20..], &[0x2028, 0x2029, 0x202F, 0x205F, 0x3000]);
}
