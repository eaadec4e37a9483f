use orbit_rs::text::{is_white, parse_number, same_lower, split_words, trim, trim_end, trim_start};

const SAMPLES: [&str; 12] = [
    "", " ", "a", " a", "a ", "  a b\t c \n", "\u{a0}x\u{3000}", "\u{2003}", "a\u{85}b", "é ü", "\r\n", "x\u{200b}",
];

#[test]
fn white_space_is_what_unicode_says() {
    for c in (0..=0x10ffffu32).filter_map(char::from_u32) {
        assert_eq!(is_white(c), c.is_whitespace(), "{:?}", c);
    }
}

#[test]
fn trimming() {
    for s in SAMPLES {
        assert_eq!(trim(s), s.trim());
        assert_eq!(trim_start(s), s.trim_start());
        assert_eq!(trim_end(s), s.trim_end());
    }
}

#[test]
fn splitting_into_words() {
    for s in SAMPLES {
        let expected: Vec<&str> = s.split_whitespace().collect();
        assert_eq!(split_words(s), expected);
    }
}

#[test]
fn lower_case_is_ascii_only() {
    assert!(same_lower("HeVC", "hevc"));
    assert!(same_lower("", ""));
    assert!(!same_lower("hevc2", "hevc"));
    assert!(!same_lower("É", "é"));
}

#[test]
fn decimal_numbers() {
    for s in ["0", "7", "+7", "007", "18446744073709551615", "18446744073709551616", "", "+", "-1", " 1", "1a", "++1"] {
        assert_eq!(parse_number(s, false, u64::MAX), s.parse::<u64>().ok(), "{:?}", s);
    }
}

#[test]
fn hex_numbers() {
    for s in ["0", "2ca3", "FFFF", "10000", "+20", "", "+", "g", "-1", "0x20"] {
        assert_eq!(
            parse_number(s, true, 0xffff),
            u16::from_str_radix(s, 16).ok().map(u64::from),
            "{:?}",
            s
        );
    }
}
