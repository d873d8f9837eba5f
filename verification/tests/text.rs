use humble_cli::decimal::{format_u64, parse_range, NumberError};
use humble_cli::text::{
    chars_of, find_char, is_whitespace, join, list_lines, split, starts_with, str_eq, string_of,
    trim, trim_end,
};
use humble_cli::util::{parse_usize, replace_invalid_chars_in_filename};

fn parse(text: &str, max: u64) -> Result<u64, NumberError> {
    let chars: Vec<char> = text.chars().collect();
    parse_range(&chars, 0, chars.len(), max)
}

#[test]
fn white_space_is_what_the_standard_library_calls_white_space() {
    let mut c = 0u32;
    while c <= 0x10FFFF {
        if let Some(ch) = char::from_u32(c) {
            assert_eq!(is_whitespace(ch), ch.is_whitespace(), "U+{:04X}", c);
        }
        c += 1;
    }
}

#[test]
fn trimming_agrees_with_the_standard_library() {
    for text in [
        "",
        " ",
        "a",
        "  a  ",
        "\t\n a b \u{3000}\u{a0}",
        "\u{2003}x\u{2003}y\u{2003}",
        "no-space",
        "   ",
    ] {
        let chars = chars_of(text);
        assert_eq!(trim(&chars), text.trim(), "{:?}", text);
        assert_eq!(trim_end(&chars), text.trim_end(), "{:?}", text);
    }
}

#[test]
fn splitting_agrees_with_the_standard_library() {
    for text in ["", "a", "a,b", ",", "a,,b,", ",a", "äö,ü"] {
        let got: Vec<String> = split(&chars_of(text), ',').iter().map(string_of).collect();
        let want: Vec<String> = text.split(',').map(|s| s.to_string()).collect();
        assert_eq!(got, want, "{:?}", text);
    }
}

#[test]
fn lines_agree_with_the_standard_library() {
    for text in [
        "",
        "a",
        "a\n",
        "a\nb",
        "a\r\nb\r\n",
        "a\n\nb",
        "\n",
        "a\r",
        "a\r\n\r",
        "\r\n",
        "a\r\r\n",
    ] {
        let want: Vec<String> = text.lines().map(|s| s.to_string()).collect();
        assert_eq!(list_lines(text), want, "{:?}", text);
    }
}

#[test]
fn searching_and_comparing() {
    assert_eq!(find_char(&chars_of("ab-cd-"), '-'), Some(2));
    assert_eq!(find_char(&chars_of("abcd"), '-'), None);
    assert_eq!(find_char(&chars_of(""), '-'), None);
    assert!(str_eq("abc", "abc"));
    assert!(!str_eq("abc", "abd"));
    assert!(!str_eq("abc", "ab"));
    assert!(starts_with(&chars_of("abc"), &chars_of("ab")));
    assert!(starts_with(&chars_of("abc"), &chars_of("")));
    assert!(!starts_with(&chars_of("ab"), &chars_of("abc")));
    assert!(!starts_with(&chars_of("abc"), &chars_of("b")));
}

#[test]
fn joining() {
    let none: Vec<String> = vec![];
    assert_eq!(join(&none, ", "), "");
    assert_eq!(join(&vec!["a".to_string()], ", "), "a");
    assert_eq!(
        join(&vec!["a".to_string(), "".to_string(), "c".to_string()], ", "),
        "a, , c"
    );
}

#[test]
fn numbers_are_read_as_the_standard_library_reads_them() {
    for text in [
        "", "0", "7", "42", "007", "+5", "+", "-", "-5", "++5", "5+", "65535", "65536", "99999",
        "1a", "a1", " 1", "1 ", "١", "000000000000000000000000000012", "18446744073709551615",
        "18446744073709551616", "99999999999999999999x", "x99999999999999999999",
    ] {
        let want16 = text.parse::<u16>().map(|n| n as u64).map_err(|e| e.to_string());
        let got16 = parse(text, u16::MAX as u64).map_err(|e| e.message().to_string());
        assert_eq!(got16, want16, "{:?} as u16", text);

        let want64 = text.parse::<u64>().map_err(|e| e.to_string());
        let got64 = parse(text, u64::MAX).map_err(|e| e.message().to_string());
        assert_eq!(got64, want64, "{:?} as u64", text);

        let chars: Vec<char> = text.chars().collect();
        let wantsize = text.parse::<usize>().map_err(|e| e.to_string());
        let gotsize = parse_usize(&chars, 0, chars.len()).map_err(|e| e.message().to_string());
        assert_eq!(gotsize, wantsize, "{:?} as usize", text);
    }
}

#[test]
fn number_errors() {
    assert_eq!(parse("", 10), Err(NumberError::Empty));
    assert_eq!(parse("x", 10), Err(NumberError::InvalidDigit));
    assert_eq!(parse("11", 10), Err(NumberError::TooLarge));
    assert_eq!(parse("10", 10), Ok(10));
    assert_eq!(
        NumberError::Empty.message(),
        "cannot parse integer from empty string"
    );
    assert_eq!(
        NumberError::InvalidDigit.message(),
        "invalid digit found in string"
    );
    assert_eq!(
        NumberError::TooLarge.message(),
        "number too large to fit in target type"
    );
}

#[test]
fn numbers_are_written_as_the_standard_library_writes_them() {
    for n in [
        0u64,
        1,
        9,
        10,
        11,
        99,
        100,
        101,
        2018,
        65535,
        1234567890,
        u64::MAX - 1,
        u64::MAX,
    ] {
        assert_eq!(format_u64(n), n.to_string());
        assert_eq!(parse(&format_u64(n), u64::MAX), Ok(n));
    }
}

#[test]
fn file_names_are_made_safe() {
    assert_eq!(replace_invalid_chars_in_filename(""), "");
    assert_eq!(replace_invalid_chars_in_filename("plain"), "plain");
    assert_eq!(
        replace_invalid_chars_in_filename("a/b\\c?d%e*f:g|h\"i<j>k;l=m\nn"),
        "a b c d e f g h i j k l m n"
    );
    assert_eq!(replace_invalid_chars_in_filename("  ::  "), "");
    assert_eq!(replace_invalid_chars_in_filename("/a/"), "a");
    // Sanitizing again changes nothing.
    let once = replace_invalid_chars_in_filename(" Humble: Bundle? ");
    assert_eq!(once, "Humble  Bundle");
    assert_eq!(replace_invalid_chars_in_filename(&once), once);
}
