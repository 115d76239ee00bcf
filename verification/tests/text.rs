use nix_installer::lines::{render, split_lines};
use nix_installer::syntax::{format_pair, is_blank, is_comment, read_line, setting, Line};
use nix_installer::text::{ascii_space, chars_of, push_decimal, string_of, unicode_space};

fn lines_of(text: &str) -> Vec<String> {
    split_lines(&chars_of(text))
}

#[test]
fn lines_are_split_as_std_splits_them() {
    let inputs = [
        "",
        "\n",
        "a",
        "a\n",
        "a\nb",
        "a\n\nb\n",
        "a\r\nb\r\n",
        "a\r",
        "a\r\r\n",
        "\r\n\r\n",
        "\ra\n",
        "x\n\n\n",
        "héllo\nwörld\u{2028}same line\n",
    ];
    for input in inputs {
        let expected: Vec<String> = input.lines().map(|l| l.to_string()).collect();
        assert_eq!(lines_of(input), expected, "input {:?}", input);
    }
    assert_eq!(lines_of("a\r\nb"), vec!["a".to_string(), "b".to_string()]);
}

#[test]
fn rendering_ends_every_line() {
    assert_eq!(render(&vec![]), "\n");
    assert_eq!(render(&vec!["a".to_string()]), "a\n");
    assert_eq!(
        render(&vec!["a".to_string(), "".to_string(), "b".to_string()]),
        "a\n\nb\n"
    );
}

#[test]
fn white_space_is_what_std_calls_white_space() {
    let mut c = 0u32;
    while c <= 0x3100 {
        if let Some(ch) = char::from_u32(c) {
            assert_eq!(unicode_space(ch), ch.is_whitespace(), "U+{:04X}", c);
            assert_eq!(ascii_space(ch), ch.is_ascii_whitespace(), "U+{:04X}", c);
        }
        c += 1;
    }
    assert!(!unicode_space('\u{1F600}'));
    assert!(unicode_space('\u{0B}'));
    assert!(!ascii_space('\u{0B}'));
}

#[test]
fn chars_and_strings_convert_both_ways() {
    let chars = chars_of("aé\u{1F600}z");
    assert_eq!(chars, vec!['a', 'é', '\u{1F600}', 'z']);
    assert_eq!(string_of(&chars, 1, 3), "é\u{1F600}");
    assert_eq!(string_of(&chars, 2, 2), "");
    assert_eq!(string_of(&chars, 0, 4), "aé\u{1F600}z");
}

#[test]
fn decimal_digits() {
    let cases: [(u64, &str); 8] = [
        (0, "0"),
        (7, "7"),
        (10, "10"),
        (16, "16"),
        (1999, "1999"),
        (30001, "30001"),
        (4294967295, "4294967295"),
        (18446744073709551615, "18446744073709551615"),
    ];
    for (n, expected) in cases {
        let mut s = String::from("x");
        push_decimal(&mut s, n);
        assert_eq!(s, format!("x{}", expected));
    }
}

#[test]
fn kinds_of_line() {
    assert!(is_blank("\r"));
    assert!(is_blank("\x0C \t"));
    assert!(!is_blank("\u{0B}"));
    assert!(!is_blank("\u{a0}"));
    assert!(is_comment("\t# c"));
    assert!(!is_comment(""));
    assert!(!is_comment("a #"));
    assert!(is_comment("\u{a0}# c"));
    assert!(is_comment("\u{0b}\u{2003}#"));
    assert!(!is_comment("x # c"));
    assert!(matches!(read_line(""), Line::Blank));
    assert!(matches!(read_line("  "), Line::Blank));
    assert!(matches!(read_line("word"), Line::Malformed));
    match read_line(" # c = d \t") {
        Line::Comment { text } => assert_eq!(text, " # c = d"),
        _ => panic!("not read as a comment"),
    }
    match read_line("k = v = w ") {
        Line::Setting { key, value } => {
            assert_eq!(key, "k");
            assert_eq!(value, "v = w");
        }
        _ => panic!("not read as a setting"),
    }
}

#[test]
fn setting_trims_as_std_trims() {
    assert_eq!(setting(" a=b"), Some(("a", "b")));
    assert_eq!(setting("\u{3000} a b \t=b"), Some(("a b", "b")));
    assert_eq!(setting(" \t = "), Some(("", "")));
    let inputs = [
        "a=b",
        " a = b ",
        "\u{2003}a\u{a0}= b",
        "a\u{a0}=\u{2003}b\u{3000}",
        "=",
        "= ",
        "a==b",
        "key with spaces\t=\tvalue with spaces\r",
        "é=ü",
    ];
    for input in inputs {
        let i = input.find('=').unwrap();
        let expected = (input[..i].trim(), input[i + 1..].trim());
        assert_eq!(setting(input), Some(expected), "input {:?}", input);
    }
    assert_eq!(setting("no equals sign"), None);
    assert_eq!(setting("  # a = b"), None);
    assert_eq!(setting(""), None);
}

#[test]
fn pair_is_written_with_single_spaces() {
    assert_eq!(format_pair("key", "value"), "key = value");
    assert_eq!(format_pair("key", ""), "key =");
    assert_eq!(format_pair("", "v"), " = v");
}
