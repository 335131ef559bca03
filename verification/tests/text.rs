use fan_dashboard::rounding::{product, round_fraction};
use fan_dashboard::text::{
    chars_of, contains, copy_range, find_run_end, is_space_char, matches_at, trim, Run,
};

fn text(chars: &[char]) -> String {
    chars.iter().collect()
}

#[test]
fn characters_of_a_string() {
    assert_eq!(chars_of("a°C ▊"), vec!['a', '°', 'C', ' ', '▊']);
    assert_eq!(chars_of(""), Vec::<char>::new());
    assert_eq!(copy_range(&chars_of("status"), 1, 4), vec!['t', 'a', 't']);
    assert_eq!(copy_range(&chars_of("status"), 6, 6), Vec::<char>::new());
}

#[test]
fn white_space() {
    for c in ['\t', '\n', '\u{b}', '\u{c}', '\r', ' ', '\u{85}', '\u{a0}', '\u{1680}', '\u{2000}', '\u{200a}', '\u{2028}', '\u{2029}', '\u{202f}', '\u{205f}', '\u{3000}'] {
        assert!(is_space_char(c), "{:?}", c);
    }
    for c in ['\0', '\u{8}', '\u{e}', 'a', '0', '_', '\u{200b}', '\u{180e}', '\u{feff}', '\u{1fff}', '\u{2001}'] {
        assert_eq!(is_space_char(c), c.is_whitespace(), "{:?}", c);
    }
    for code in 0..0x3100u32 {
        if let Some(c) = char::from_u32(code) {
            assert_eq!(is_space_char(c), c.is_whitespace(), "{:?}", c);
        }
    }
}

#[test]
fn trimming() {
    for (from, to) in [("  a b \n", "a b"), ("a", "a"), ("", ""), (" \t ", ""), ("\u{a0}x", "x"), ("x\u{3000}", "x"), (" a  ", "a")] {
        assert_eq!(text(&trim(&chars_of(from))), to);
        assert_eq!(text(&trim(&chars_of(from))), from.trim());
    }
}

#[test]
fn runs() {
    let chars = chars_of("  speed:\t2500\nlevel");
    assert_eq!(find_run_end(&chars, 0, Run::Spaces), 2);
    assert_eq!(find_run_end(&chars, 2, Run::Spaces), 2);
    assert_eq!(find_run_end(&chars, 2, Run::Word), 8);
    assert_eq!(find_run_end(&chars, 8, Run::Spaces), 9);
    assert_eq!(find_run_end(&chars, 0, Run::Line), 13);
    assert_eq!(find_run_end(&chars, 13, Run::Line), 13);
    assert_eq!(find_run_end(&chars, 14, Run::Line), 19);
    assert_eq!(find_run_end(&chars, 19, Run::Word), 19);
    assert!(Run::Spaces.has(' ') && !Run::Word.has(' ') && Run::Line.has(' '));
    assert!(!Run::Line.has('\n') && Run::Spaces.has('\n'));
}

#[test]
fn parts_of_a_text() {
    let key = chars_of("temp1_input");
    assert!(contains(&key, &chars_of("temp")));
    assert!(contains(&key, &chars_of("input")));
    assert!(contains(&key, &chars_of("1_")));
    assert!(contains(&key, &chars_of("")));
    assert!(contains(&key, &key));
    assert!(!contains(&key, &chars_of("inputs")));
    assert!(!contains(&key, &chars_of("tmp")));
    assert!(!contains(&chars_of(""), &chars_of("t")));
    assert!(contains(&chars_of(""), &chars_of("")));
    assert!(matches_at(&key, &chars_of("input"), 6));
    assert!(!matches_at(&key, &chars_of("input"), 5));
    assert!(matches_at(&key, &chars_of(""), 11));
}

#[test]
fn rounding() {
    assert_eq!(round_fraction(0, 1), 0);
    assert_eq!(round_fraction(7, 2), 4);
    assert_eq!(round_fraction(5, 2), 3);
    assert_eq!(round_fraction(1, 2), 1);
    assert_eq!(round_fraction(1, 3), 0);
    assert_eq!(round_fraction(2, 3), 1);
    assert_eq!(round_fraction(132, 20), 7);
    assert_eq!(round_fraction(149, 100), 1);
    assert_eq!(round_fraction(150, 100), 2);
    assert_eq!(round_fraction(u128::MAX, 1), u128::MAX);
    assert_eq!(round_fraction(u128::MAX, 2), u128::MAX / 2 + 1);
    assert_eq!(round_fraction(u128::MAX, u128::MAX / 2), 2);
    assert_eq!(product(0, 5), 0);
    assert_eq!(product(usize::MAX, usize::MAX), (usize::MAX as u128) * (usize::MAX as u128));
}
