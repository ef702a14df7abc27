use send_all_rs::text::{char_is_whitespace, decimal_chars, lowercase_chars, trim_chars};

#[test]
fn whitespace_agrees_with_std_on_every_char() {
    for code in 0u32..=0x10FFFF {
        if let Some(c) = char::from_u32(code) {
            assert_eq!(char_is_whitespace(c), c.is_whitespace(), "U+{:04X}", code);
        }
    }
}

#[test]
fn decimal_digits() {
    let text = |n: u128| decimal_chars(n).into_iter().collect::<String>();
    assert_eq!(text(0), "0");
    assert_eq!(text(7), "7");
    assert_eq!(text(1042), "1042");
    assert_eq!(text(u128::MAX), u128::MAX.to_string());
}

#[test]
fn trim_matches_std() {
    for s in ["", "  ", " a b ", "\u{2003}x\u{85}", "x", "\t\n y \r\n"] {
        let chars: Vec<char> = s.chars().collect();
        let trimmed: String = trim_chars(&chars).into_iter().collect();
        assert_eq!(trimmed, s.trim());
    }
}

#[test]
fn ascii_lowercase_mapping() {
    let all: Vec<char> = (0u8..128).map(char::from).collect();
    let expected: Vec<char> = all.iter().map(|c| c.to_ascii_lowercase()).collect();
    assert_eq!(lowercase_chars(&all), expected);
    assert_eq!(lowercase_chars(&['M', 'I', 'N']), vec!['m', 'i', 'n']);
    assert_eq!(lowercase_chars(&['Ä', 'B']), vec!['ä', 'b']);
}

#[test]
fn ascii_alphabetic_characters_are_the_letters() {
    for b in 0u8..128 {
        let c = char::from(b);
        assert_eq!(c.is_alphabetic(), c.is_ascii_alphabetic(), "{:?}", c);
    }
}

