use simple_http::scan;

fn chars(s: &str) -> Vec<char> {
    s.chars().collect()
}

fn text(s: &[char]) -> String {
    s.iter().collect()
}

const SAMPLES: [&str; 16] = [
    "",
    " ",
    "a",
    "abc",
    "  abc  ",
    "\t\r\n abc def \u{a0}\u{3000}",
    "a\r\nb\r\n\r\nc",
    "\r\n\r\n",
    "\r\r\n\n",
    "GET / HTTP/1.1\r\nHost: x\r\n\r\n",
    "key: value: more",
    ":",
    "::",
    "\u{2003}caf\u{e9}\u{2003}",
    "\u{200b}zero width\u{200b}",
    "a  b\x0cc\u{85}",
];

const PATTERNS: [&str; 8] = ["\r\n", "\r\n\r\n", " ", ":", "a", "abc", "\n", ""];

#[test]
fn to_chars_gives_the_characters() {
    for s in SAMPLES {
        assert_eq!(scan::to_chars(s), chars(s));
    }
    assert_eq!(scan::to_chars("h\u{e9}"), vec!['h', '\u{e9}']);
}

#[test]
fn to_string_gives_the_text() {
    for s in SAMPLES {
        assert_eq!(scan::to_string(&chars(s)), s);
    }
    assert_eq!(scan::to_string(&['h', 'i']), "hi");
    assert_eq!(scan::to_string(&[]), "");
}

#[test]
fn is_space_is_unicode_white_space() {
    for n in 0..=0x10FFFFu32 {
        if let Some(c) = char::from_u32(n) {
            assert_eq!(scan::is_space(c), c.is_whitespace(), "U+{:04X}", n);
        }
    }
}

#[test]
fn is_ascii_space_is_ascii_whitespace() {
    for n in 0..=0x10FFFFu32 {
        if let Some(c) = char::from_u32(n) {
            assert_eq!(scan::is_ascii_space(c), c.is_ascii_whitespace(), "U+{:04X}", n);
        }
    }
}

#[test]
fn is_text_compares_exactly() {
    assert!(scan::is_text(&chars("GET"), "GET"));
    assert!(!scan::is_text(&chars("GET"), "GE"));
    assert!(!scan::is_text(&chars("GE"), "GET"));
    assert!(!scan::is_text(&chars("get"), "GET"));
    assert!(scan::is_text(&chars(""), ""));
    assert!(!scan::is_text(&chars("a"), ""));
    for a in SAMPLES {
        for b in SAMPLES {
            assert_eq!(scan::is_text(&chars(a), b), a == b);
        }
    }
}

#[test]
fn find_gives_the_first_occurrence() {
    assert_eq!(scan::find(&chars("a\r\nb\r\n"), &chars("\r\n")), Some(1));
    assert_eq!(scan::find(&chars("abcabc"), &chars("bc")), Some(1));
    assert_eq!(scan::find(&chars("abc"), &chars("abcd")), None);
    assert_eq!(scan::find(&chars("abc"), &chars("")), Some(0));
    assert_eq!(scan::find(&chars(""), &chars("")), Some(0));
    assert_eq!(scan::find(&chars(""), &chars("a")), None);
    assert_eq!(scan::find(&chars("aab"), &chars("ab")), Some(1));
    for s in SAMPLES {
        for p in PATTERNS {
            let expected = s.find(p).map(|at| s[..at].chars().count());
            assert_eq!(scan::find(&chars(s), &chars(p)), expected, "{:?} in {:?}", p, s);
        }
    }
}

#[test]
fn occurs_at_checks_one_place() {
    let s = chars("a\r\nb");
    let pat = chars("\r\n");
    assert!(!scan::occurs_at(&s, &pat, 0));
    assert!(scan::occurs_at(&s, &pat, 1));
    assert!(!scan::occurs_at(&s, &pat, 2));
    assert!(!scan::occurs_at(&s, &pat, 3));
    assert!(!scan::occurs_at(&s, &pat, 4));
    assert!(!scan::occurs_at(&s, &pat, 400));
    assert!(scan::occurs_at(&s, &[], 4));
    assert!(!scan::occurs_at(&s, &[], 5));
}

#[test]
fn split_once_cuts_at_the_first_occurrence() {
    let s = chars("key: value: more");
    let (head, tail) = scan::split_once(&s, &[':']).unwrap();
    assert_eq!(text(head), "key");
    assert_eq!(text(tail), " value: more");
    assert!(scan::split_once(&chars("no colon"), &[':']).is_none());
    for s in SAMPLES {
        for p in PATTERNS {
            let cs = chars(s);
            let got = scan::split_once(&cs, &chars(p)).map(|(a, b)| (text(a), text(b)));
            let expected = s.split_once(p).map(|(a, b)| (a.to_string(), b.to_string()));
            assert_eq!(got, expected, "{:?} at {:?}", s, p);
        }
    }
}

#[test]
fn trim_removes_whitespace_at_both_ends() {
    assert_eq!(text(scan::trim(&chars("  a b \t"))), "a b");
    assert_eq!(text(scan::trim(&chars(" \u{a0}\u{3000} "))), "");
    assert_eq!(text(scan::trim_start(&chars("  a b \t"))), "a b \t");
    assert_eq!(text(scan::trim_end(&chars("  a b \t"))), "  a b");
    for s in SAMPLES {
        let cs = chars(s);
        assert_eq!(text(scan::trim(&cs)), s.trim());
        assert_eq!(text(scan::trim_start(&cs)), s.trim_start());
        assert_eq!(text(scan::trim_end(&cs)), s.trim_end());
    }
}

#[test]
fn word_len_stops_at_ascii_whitespace() {
    assert_eq!(scan::word_len(&chars("HTTP/1.1 rest")), 8);
    assert_eq!(scan::word_len(&chars("word")), 4);
    assert_eq!(scan::word_len(&chars(" word")), 0);
    assert_eq!(scan::word_len(&chars("")), 0);
    assert_eq!(scan::word_len(&chars("a\u{a0}b c")), 3);
    assert_eq!(scan::word_len(&chars("ab\x0cc")), 2);
}

#[test]
fn decimal_writes_numbers() {
    assert_eq!(scan::decimal(0), "0");
    assert_eq!(scan::decimal(7), "7");
    assert_eq!(scan::decimal(10), "10");
    assert_eq!(scan::decimal(48), "48");
    assert_eq!(scan::decimal(1024), "1024");
    assert_eq!(scan::decimal(9_876_543_210), "9876543210");
    assert_eq!(scan::decimal(usize::MAX), usize::MAX.to_string());
    for n in 0..2000usize {
        assert_eq!(scan::decimal(n), n.to_string());
    }
}
