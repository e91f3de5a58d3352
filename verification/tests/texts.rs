use pgqueue::text::{
    chars_of, comes_before, is_white_space, parse_u32, push_decimal, push_integer, same_text,
    split_at_each, split_at_first, split_words, trim_spaces, wrap,
};

const SAMPLES: [&str; 12] = [
    "",
    " ",
    "a",
    " a b ",
    "\u{a0}x\u{2003}\u{3000}y\u{85}",
    "1,2,,3,",
    "a/b/c",
    "-",
    "9-17",
    "\u{1f600} é\u{200b}",
    "\n\t\u{b}\u{c}\r",
    "tail ",
];

#[test]
fn white_space_is_what_unicode_says() {
    for n in 0..=0x10_ffffu32 {
        if let Some(c) = char::from_u32(n) {
            assert_eq!(is_white_space(c), c.is_whitespace(), "U+{n:04X}");
        }
    }
}

#[test]
fn words_and_trimming() {
    for s in SAMPLES {
        assert_eq!(trim_spaces(s), s.trim());
        assert_eq!(split_words(s), s.split_whitespace().collect::<Vec<_>>());
        assert_eq!(chars_of(s), s.chars().collect::<Vec<_>>());
    }
}

#[test]
fn splitting() {
    for s in SAMPLES {
        for sep in [',', '/', '-', ' ', 'é'] {
            assert_eq!(split_at_each(s, sep), s.split(sep).collect::<Vec<_>>());
            assert_eq!(split_at_first(s, sep), s.split_once(sep));
        }
    }
}

#[test]
fn numbers_are_read_as_std_reads_them() {
    for s in [
        "", "0", "+", "-", "+0", "-0", "7", "007", "4294967295", "4294967296", "99999999999999",
        "+4294967295", "++1", "1+", " 1", "1 ", "1_0", "0x1", "\u{663}", "12a", "00000000000000001", "99999999999x", "429496729x", "+-1", "4294967296x", "42949672960",
    ] {
        let expected = s.parse::<u32>().map_err(|e| e.to_string());
        assert_eq!(parse_u32(s).map_err(|e| e.message().to_string()), expected, "{s:?}");
    }
}

#[test]
fn numbers_are_written_as_std_writes_them() {
    for n in [0, 9, 10, 99, 100, 12_345, u64::MAX] {
        let mut out = "n=".to_string();
        push_decimal(&mut out, n);
        assert_eq!(out, format!("n={n}"));
    }
    for i in [0, 7, -7, i64::MAX, i64::MIN, -10] {
        let mut out = String::new();
        push_integer(&mut out, i);
        assert_eq!(out, format!("{i}"));
    }
}

#[test]
fn texts_are_ordered_as_std_orders_them() {
    for a in SAMPLES {
        for b in SAMPLES {
            assert_eq!(comes_before(a, b), a < b, "{a:?} {b:?}");
            assert_eq!(same_text(a, b), a == b);
        }
    }
    assert!(comes_before("\u{ffff}", "\u{10000}"));
    assert!(comes_before("ab", "abc"));
}

#[test]
fn wrapping() {
    assert_eq!(wrap("<", "x", ">"), "<x>");
    assert_eq!(wrap("", "", ""), "");
}

#[test]
fn a_written_number_reads_back() {
    for n in [0, 1, 10, 4_294_967_294, u32::MAX] {
        let mut out = String::new();
        push_decimal(&mut out, n as u64);
        assert_eq!(parse_u32(&out), Ok(n));
    }
}
