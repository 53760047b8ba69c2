use buzz::text::{push_decimal, trim, trim_end, white_space};

#[test]
fn decimal_of_small_and_large_numbers() {
    for n in [0u64, 7, 9, 10, 42, 99, 100, 1234567890, u64::MAX] {
        let mut out = String::from("n=");
        push_decimal(&mut out, n);
        assert_eq!(out, format!("n={}", n));
    }
}

#[test]
fn white_space_is_what_the_standard_library_calls_so() {
    for code in 0u32..=0x3100 {
        if let Some(c) = char::from_u32(code) {
            assert_eq!(white_space(c), c.is_whitespace(), "U+{:04X}", code);
        }
    }
    assert!(!white_space('\u{200B}'));
    assert!(!white_space('\u{FEFF}'));
    assert!(!white_space('\u{10FFFF}'));
}

#[test]
fn trim_end_cuts_only_the_end() {
    assert_eq!(trim_end("  a b \n\t "), "  a b");
    assert_eq!(trim_end("> x\n> y\n"), "> x\n> y");
    assert_eq!(trim_end(""), "");
    assert_eq!(trim_end(" \n "), "");
    assert_eq!(trim_end("é\u{3000}"), "é");
    assert_eq!(trim_end("no space"), "no space");
}

#[test]
fn trim_cuts_both_ends() {
    assert_eq!(trim("  imap.example.org \n"), "imap.example.org");
    assert_eq!(trim("\u{A0}ü ser\u{2003}"), "ü ser");
    assert_eq!(trim(""), "");
    assert_eq!(trim("\t\n"), "");
    assert_eq!(trim("x"), "x");
}

#[test]
fn trimming_agrees_with_the_standard_library() {
    let samples = [
        "", " ", "a", " a", "a ", " a ", "\na\tb\r\n", "\u{85}x\u{1680}", "日本語 ", "  \u{2028}",
        "a\u{200B} ",
    ];
    for s in samples {
        assert_eq!(trim(s), s.trim());
        assert_eq!(trim_end(s), s.trim_end());
    }
}
