use sideterm_sidebar::text::{char_is_whitespace, str_eq, str_lt, usize_decimal};

#[test]
fn whitespace_agrees_with_std_on_every_char() {
    for u in 0u32..=0x10FFFF {
        if let Some(c) = char::from_u32(u) {
            assert_eq!(char_is_whitespace(c), c.is_whitespace(), "U+{u:04X}");
        }
    }
}

#[test]
fn string_comparisons_agree_with_std() {
    let samples = ["", "a", "ab", "abc", "b", "B", "é", "e\u{301}", "\u{1F600}", "zz", "a\u{0}"];
    for a in samples {
        for b in samples {
            assert_eq!(str_eq(a, b), a == b, "{a:?} == {b:?}");
            assert_eq!(str_lt(a, b), a < b, "{a:?} < {b:?}");
        }
    }
}

#[test]
fn decimal_agrees_with_to_string() {
    let mut samples: Vec<usize> = (0..=1000).collect();
    samples.extend([9_999, 10_000, 65_535, 1_000_000_007, usize::MAX - 1, usize::MAX]);
    for n in samples {
        assert_eq!(usize_decimal(n), n.to_string());
    }
}
