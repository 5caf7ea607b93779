use aurorus::text::{
    after_last_range, find_char, from_chars, has_prefix, is_whitespace, line_ranges,
    matches_ignore_case, parse_usize, to_chars, to_lower_code, trim_range, word_ranges,
};

fn pieces(text: &str, ranges: &[(usize, usize)]) -> Vec<String> {
    let chars = to_chars(text);
    ranges.iter().map(|r| from_chars(&chars, r.0, r.1)).collect()
}

fn lines_of(text: &str) -> Vec<String> {
    let chars = to_chars(text);
    pieces(text, &line_ranges(&chars))
}

fn words_of(text: &str) -> Vec<String> {
    let chars = to_chars(text);
    pieces(text, &word_ranges(&chars, 0, chars.len()))
}

fn trimmed(text: &str) -> String {
    let chars = to_chars(text);
    let (lo, hi) = trim_range(&chars, 0, chars.len());
    from_chars(&chars, lo, hi)
}

fn number(text: &str) -> Option<usize> {
    let chars = to_chars(text);
    parse_usize(&chars, 0, chars.len())
}

#[test]
fn chars_round_trip() {
    let v = to_chars("héllo wörld");
    assert_eq!(v.len(), 11);
    assert_eq!(from_chars(&v, 0, v.len()), "héllo wörld");
    assert_eq!(from_chars(&v, 6, 11), "wörld");
    assert_eq!(from_chars(&v, 3, 3), "");
}

#[test]
fn whitespace_matches_unicode_property() {
    let mut n: u32 = 0;
    while n <= 0x10FFFF {
        if let Some(c) = char::from_u32(n) {
            assert_eq!(is_whitespace(c), c.is_whitespace());
        }
        n += 1;
    }
}

#[test]
fn lower_code_matches_ascii_lowercase() {
    let mut n: u32 = 0;
    while n <= 0x10FFFF {
        if let Some(c) = char::from_u32(n) {
            assert_eq!(to_lower_code(c), c.to_ascii_lowercase() as u32);
        }
        n += 1;
    }
}

#[test]
fn trim_drops_white_space_at_both_ends() {
    assert_eq!(trimmed("  a b \t\r\n"), "a b");
    assert_eq!(trimmed("a"), "a");
    assert_eq!(trimmed(""), "");
    assert_eq!(trimmed(" \u{3000}\u{a0} "), "");
    assert_eq!(trimmed("\u{2003}x\u{2003}y\u{2003}"), "x\u{2003}y");
}

#[test]
fn trim_agrees_with_std() {
    for text in ["", " ", "x", " x", "x ", "\t x y \n", "\u{85}é\u{1680}", "  depends = a  "] {
        assert_eq!(trimmed(text), text.trim());
    }
}

#[test]
fn lines_end_at_line_feeds() {
    assert_eq!(lines_of("a\nb\nc"), vec!["a", "b", "c"]);
    assert_eq!(lines_of("a\nb\n"), vec!["a", "b"]);
    assert_eq!(lines_of("a\n\nb"), vec!["a", "", "b"]);
    assert_eq!(lines_of("\n"), vec![""]);
    assert_eq!(lines_of(""), Vec::<String>::new());
    assert_eq!(lines_of("one"), vec!["one"]);
}

#[test]
fn lines_drop_carriage_return_before_line_feed() {
    assert_eq!(lines_of("a\r\nb\r\n"), vec!["a", "b"]);
    assert_eq!(lines_of("a\r\r\nb"), vec!["a\r", "b"]);
    assert_eq!(lines_of("a\rb\nc\r"), vec!["a\rb", "c\r"]);
    assert_eq!(lines_of("\r\n"), vec![""]);
}

#[test]
fn lines_agree_with_std() {
    for text in ["", "\n", "a", "a\n", "a\nb", "a\r\nb\r\n", "\n\n", "x\r", "a\n\r\nb", " a \n b "] {
        let expected: Vec<String> = text.lines().map(|l| l.to_string()).collect();
        assert_eq!(lines_of(text), expected);
    }
}

#[test]
fn words_are_runs_without_white_space() {
    assert_eq!(words_of("  foo  bar\tbaz "), vec!["foo", "bar", "baz"]);
    assert_eq!(words_of("single"), vec!["single"]);
    assert_eq!(words_of("   "), Vec::<String>::new());
    assert_eq!(words_of(""), Vec::<String>::new());
    assert_eq!(words_of("a\u{2003}b"), vec!["a", "b"]);
}

#[test]
fn words_agree_with_std() {
    for text in ["", " ", "a", " a", "a ", "a b", "  a\t\tb  c\n", "core/zlib 1:1.3-1 [installed]"] {
        let expected: Vec<String> = text.split_whitespace().map(|w| w.to_string()).collect();
        assert_eq!(words_of(text), expected);
    }
}

#[test]
fn word_ranges_stay_inside_the_given_bounds() {
    let chars = to_chars("ab cd ef");
    assert_eq!(word_ranges(&chars, 1, 7), vec![(1, 2), (3, 5), (6, 7)]);
    assert_eq!(word_ranges(&chars, 2, 3), Vec::<(usize, usize)>::new());
    assert_eq!(word_ranges(&chars, 4, 4), Vec::<(usize, usize)>::new());
}

#[test]
fn prefix_is_matched_at_the_start_only() {
    let s = to_chars("xdepends = y");
    let key = to_chars("depends =");
    assert!(has_prefix(&s, 1, s.len(), &key));
    assert!(!has_prefix(&s, 0, s.len(), &key));
    assert!(!has_prefix(&s, 1, 9, &key));
    assert!(has_prefix(&s, 1, 10, &key));
    assert!(has_prefix(&s, 5, 5, &[]));
}

#[test]
fn find_char_gives_the_first_position() {
    let s = to_chars("a=b=c");
    assert_eq!(find_char(&s, 0, s.len(), '='), 1);
    assert_eq!(find_char(&s, 2, s.len(), '='), 3);
    assert_eq!(find_char(&s, 4, s.len(), '='), 5);
    assert_eq!(find_char(&s, 0, 1, '='), 1);
}

#[test]
fn after_last_gives_the_final_segment() {
    let s = to_chars("extra/sub/name");
    assert_eq!(after_last_range(&s, 0, s.len(), '/'), 10);
    assert_eq!(after_last_range(&s, 0, 9, '/'), 6);
    assert_eq!(after_last_range(&s, 0, 5, '/'), 0);
    assert_eq!(after_last_range(&s, 0, 6, '/'), 6);
}

#[test]
fn case_is_ignored_for_ascii_letters_only() {
    let s = to_chars("BaCk");
    assert!(matches_ignore_case(&s, 0, 4, &to_chars("back")));
    assert!(matches_ignore_case(&s, 0, 4, &to_chars("BACK")));
    assert!(!matches_ignore_case(&s, 0, 3, &to_chars("back")));
    assert!(!matches_ignore_case(&s, 0, 4, &to_chars("bark")));
    assert!(!matches_ignore_case(&to_chars("É"), 0, 1, &to_chars("é")));
    assert!(!matches_ignore_case(&to_chars("@"), 0, 1, &to_chars("`")));
    assert!(!matches_ignore_case(&to_chars("["), 0, 1, &to_chars("{")));
}

#[test]
fn numbers_are_read_in_decimal() {
    assert_eq!(number("0"), Some(0));
    assert_eq!(number("7"), Some(7));
    assert_eq!(number("042"), Some(42));
    assert_eq!(number("+15"), Some(15));
    assert_eq!(number("1234567890"), Some(1234567890));
}

#[test]
fn text_that_is_no_number_is_refused() {
    assert_eq!(number(""), None);
    assert_eq!(number("+"), None);
    assert_eq!(number("-1"), None);
    assert_eq!(number("++1"), None);
    assert_eq!(number("1+"), None);
    assert_eq!(number("12a"), None);
    assert_eq!(number("a12"), None);
    assert_eq!(number(" 1"), None);
    assert_eq!(number("1.5"), None);
    assert_eq!(number("١٢"), None);
}

#[test]
fn numbers_beyond_the_machine_word_are_refused() {
    let max = usize::MAX.to_string();
    assert_eq!(number(&max), Some(usize::MAX));
    let mut over = max.clone();
    over.push('0');
    assert_eq!(number(&over), None);
    let mut digits: Vec<char> = max.chars().collect();
    let last = digits.len() - 1;
    digits[last] = char::from_digit(digits[last].to_digit(10).unwrap() + 1, 10).unwrap();
    let next: String = digits.iter().collect();
    assert_eq!(number(&next), None);
    assert_eq!(number("99999999999999999999999999x"), None);
}

#[test]
fn numbers_agree_with_std() {
    for text in ["", "0", "+0", "+", "00012", "18446744073709551615", "18446744073709551616", "4x", "-0"] {
        assert_eq!(number(text), text.parse::<usize>().ok());
    }
}
