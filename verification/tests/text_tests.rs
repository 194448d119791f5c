use lamp::text::{
    find_char, is_whitespace, parse_number, push_decimal, range_is, same_chars, split_spaces,
    string_of, to_ascii_upper, to_chars, trim_range,
};

fn every_char() -> Vec<char> {
    (0..=0x10FFFFu32).filter_map(char::from_u32).collect()
}

#[test]
fn whitespace_is_what_the_standard_library_calls_whitespace() {
    for c in every_char() {
        assert_eq!(is_whitespace(c), c.is_whitespace());
    }
}

#[test]
fn upper_case_folds_ascii_letters_only() {
    for c in every_char() {
        assert_eq!(to_ascii_upper(c), c.to_ascii_uppercase());
    }
}

#[test]
fn chars_of_a_string_and_back() {
    for text in ["", "a", "LOAD #1", "\u{e9}t\u{e9}", "\u{1F600}!"] {
        let chars = to_chars(text);
        assert_eq!(chars, text.chars().collect::<Vec<char>>());
        assert_eq!(string_of(&chars, 0, chars.len()), text);
    }
    let chars = to_chars("abcdef");
    assert_eq!(string_of(&chars, 2, 4), "cd");
    assert_eq!(string_of(&chars, 3, 3), "");
}

#[test]
fn same_chars_and_range_is() {
    assert!(same_chars(&to_chars("abc"), &to_chars("abc")));
    assert!(!same_chars(&to_chars("abc"), &to_chars("abd")));
    assert!(!same_chars(&to_chars("abc"), &to_chars("ab")));
    assert!(same_chars(&to_chars(""), &to_chars("")));
    let chars = to_chars("step now");
    assert!(range_is(&chars, 0, 4, &to_chars("step")));
    assert!(range_is(&chars, 5, 8, &to_chars("now")));
    assert!(!range_is(&chars, 0, 4, &to_chars("stop")));
    assert!(!range_is(&chars, 0, 5, &to_chars("step")));
}

#[test]
fn find_char_gives_the_first_place_or_the_end() {
    let chars = to_chars("a,b,,c");
    assert_eq!(find_char(&chars, 0, 6, ','), 1);
    assert_eq!(find_char(&chars, 2, 6, ','), 3);
    assert_eq!(find_char(&chars, 4, 6, ','), 4);
    assert_eq!(find_char(&chars, 5, 6, ','), 6);
    assert_eq!(find_char(&chars, 0, 1, ','), 1);
    assert_eq!(find_char(&chars, 3, 3, ','), 3);
}

#[test]
fn trim_range_is_trim() {
    for text in ["", " ", "  a  ", "a", "\t#1 2\n", "\u{a0}x\u{3000}", " \r\n ", "a b"] {
        let chars = to_chars(text);
        let (start, end) = trim_range(&chars, 0, chars.len());
        assert_eq!(string_of(&chars, start, end), text.trim());
    }
}

#[test]
fn parse_number_is_the_parse_of_the_standard_library() {
    let mut texts: Vec<String> = Vec::new();
    for value in 0..=400u32 {
        texts.push(format!("{}", value));
        texts.push(format!("+{}", value));
        texts.push(format!("-{}", value));
        texts.push(format!("00{}", value));
        texts.push(format!("{} ", value));
        texts.push(format!("{}a", value));
    }
    for text in ["", "+", "-", "++1", "+-1", "1+", "0x10", "1_0", "\u{661}", "١٢"] {
        texts.push(text.to_string());
    }
    for text in texts {
        let chars = to_chars(&text);
        assert_eq!(
            parse_number(&chars, 0, chars.len(), 255),
            text.parse::<u8>().ok().map(|n| n as usize)
        );
        assert_eq!(
            parse_number(&chars, 0, chars.len(), usize::MAX),
            text.parse::<usize>().ok()
        );
    }
}

#[test]
fn parse_number_at_the_limits_of_usize() {
    for text in [
        format!("{}", usize::MAX),
        format!("{}", usize::MAX as u128 + 1),
        format!("{}0", usize::MAX),
        format!("000000000000000000000000000000000000{}", usize::MAX),
    ] {
        let chars = to_chars(&text);
        assert_eq!(
            parse_number(&chars, 0, chars.len(), usize::MAX),
            text.parse::<usize>().ok()
        );
    }
}

#[test]
fn push_decimal_writes_the_number() {
    for n in [0u128, 1, 9, 10, 11, 99, 100, 255, 4096, u64::MAX as u128, u128::MAX] {
        let mut s = String::from("n=");
        push_decimal(&mut s, n);
        assert_eq!(s, format!("n={}", n));
    }
}

#[test]
fn split_spaces_is_split_at_every_space() {
    for text in ["", "a", "a b", "a  b", " a", "a ", "regdump all", "  ", "a\tb c"] {
        let chars = to_chars(text);
        let words = split_spaces(text, &chars, 0, chars.len());
        assert_eq!(words, text.split(' ').collect::<Vec<&str>>());
    }
    let text = "xx a b yy";
    let chars = to_chars(text);
    assert_eq!(split_spaces(text, &chars, 3, 6), vec!["a", "b"]);
}
