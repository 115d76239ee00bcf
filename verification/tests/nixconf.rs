use nix_installer::digest::hashit;
use nix_installer::nixconf::{CommentedSetting, NixConf, ParseError};
use nix_installer::syntax::{is_blank, is_comment, setting};

#[test]
fn test_helpers() {
    assert!(is_comment("#comment"));
    assert!(!is_comment("non-comment"));
    // White space before the `#` does not stop a line from being a comment.
    assert!(is_comment("   #non-comment"));
    assert!(!is_comment("a=b   #non-comment"));
    assert!(!is_blank("#a b c #$@#$=b   #non-comment"));
    assert!(is_blank(""));
    assert!(is_blank(" "));
    assert!(is_blank(" \t"));
    assert!(!is_blank(" \t,"));
    assert_eq!(
        setting("a=b   #non-comment"),
        Some(("a", "b   #non-comment"))
    );
    assert_eq!(
        setting("a= b   #non-comment"),
        Some(("a", "b   #non-comment"))
    );
    assert_eq!(
        setting("a  = b   #non-comment "),
        Some(("a", "b   #non-comment"))
    );
    assert_eq!(
        setting("a b c #$@#$=b   #non-comment"),
        Some(("a b c #$@#$", "b   #non-comment"))
    );
    assert_eq!(setting("#a b c #$@#$=b   #non-comment"), None);
    assert!(hashit("foo") == hashit("foo"));
    assert!(hashit("foo") != hashit("bar"));
}

#[test]
fn test_nix_conf_canonicalization() {
    let canonical = "max-jobs = auto\n";
    {
        let nc = NixConf::read_from_str(canonical).unwrap();
        assert!(!nc.has_changed());
    }
    {
        let nc = NixConf::read_from_str("max-jobs= auto").unwrap();
        assert!(nc.has_changed());
        assert_eq!(nc.to_string_impl(), canonical);
    }
    let canonical_unset = "something =\n";
    {
        let nc = NixConf::read_from_str(canonical_unset).unwrap();
        println!("<<{}>>", nc.to_string_impl());
        assert!(!nc.has_changed());
    }
    {
        let nc = NixConf::read_from_str("something=  \n").unwrap();
        assert!(nc.has_changed());
        assert_eq!(nc.to_string_impl(), canonical_unset);
    }
}

#[test]
fn test_nix_conf() {
    let conf = "\
max-jobs = auto

# Use all available CPU cores in the system
# Pass -jN to build jobs where N is the number of cores
cores = 0

bogus = value
# Since 2.2, Nix has sandboxing enabled by default
sandbox = true
# Make our impure builds work by letting them access the following
extra-sandbox-paths = /lib /lib64 /usr/bin

# Disable signatures as we trust the transport and storage
require-sigs = false
# First download from our own binary-cache, then upstream
substituters = s3://my-awesome-nix-cache https://cache.nixos.org
";
    let mut nc = NixConf::read_from_str(conf).unwrap();
    assert!(!nc.has_changed());
    // make an insert with the same value without comment (where there was none)
    assert_eq!(nc.get("max-jobs"), Some(&"auto".to_string()));
    nc.insert("max-jobs".to_string(), "auto".into());
    assert_eq!(nc.get("max-jobs"), Some(&"auto".to_string()));
    assert!(!nc.has_changed());
    // make an insert that changes neither comment nor value
    assert_eq!(nc.get("sandbox"), Some(&"true".to_string()));
    nc.insert(
        "sandbox".to_string(),
        CommentedSetting {
            value: "true".into(),
            comment: "Since 2.2, Nix has sandboxing enabled by default".into(),
        },
    );
    assert_eq!(nc.get("sandbox"), Some(&"true".to_string()));
    assert!(!nc.has_changed());
    // make an insert that changes the comment
    assert_eq!(nc.get("cores"), Some(&"0".to_string()));
    nc.insert(
        "cores".to_string(),
        CommentedSetting {
            value: "0".to_string(),
            comment: "Use all available CPU cores\non this system".to_string(),
        },
    );
    assert_eq!(nc.get("cores"), Some(&"0".to_string()));
    assert!(nc.has_changed());
    nc = NixConf::read_from_str(&nc.to_string_impl()).unwrap();
    assert_eq!(nc.get("bogus"), Some(&"value".to_string()));
    // remove a value
    nc.remove("bogus".to_string());
    assert_eq!(nc.get("bogus"), None);
    assert!(nc.has_changed());
    nc.insert("cores".to_string(), "8".into());
    assert_eq!(nc.get("cores"), Some(&"8".to_string()));
    // add a new value
    assert_eq!(nc.get("min-free"), None);
    nc.insert("min-free".to_string(), "0".into());
    assert_eq!(nc.get("min-free"), Some(&"0".to_string()));
    // Blank lines belong to no record: those around `cores` and where
    // `bogus` stood are still there.
    assert_eq!(
        nc.to_string_impl(),
        "\
max-jobs = auto

cores = 8

# Since 2.2, Nix has sandboxing enabled by default
sandbox = true
# Make our impure builds work by letting them access the following
extra-sandbox-paths = /lib /lib64 /usr/bin

# Disable signatures as we trust the transport and storage
require-sigs = false
# First download from our own binary-cache, then upstream
substituters = s3://my-awesome-nix-cache https://cache.nixos.org
min-free = 0
"
    );
}

fn read(text: &str) -> NixConf {
    NixConf::read_from_str(text).unwrap()
}

fn with_comment(value: &str, comment: &str) -> CommentedSetting {
    CommentedSetting {
        value: value.to_string(),
        comment: comment.to_string(),
    }
}

#[test]
fn scenario_insert_keeps_comment_and_other_record() {
    let mut nc = read("max-jobs = auto\n\n# keep cores\ncores = 0\n");
    assert_eq!(nc.get("cores"), Some(&"0".to_string()));
    let previous = nc.insert("cores".to_string(), with_comment("8", "keep cores"));
    assert_eq!(previous, Some("0".to_string()));
    assert_eq!(nc.get("cores"), Some(&"8".to_string()));
    assert_eq!(nc.get("max-jobs"), Some(&"auto".to_string()));
    assert_eq!(
        nc.to_string_impl(),
        "max-jobs = auto\n\n# keep cores\ncores = 8\n"
    );
    assert!(nc.has_changed());
}

#[test]
fn canonical_text_round_trips() {
    let text = "# first\n# second\nalpha = 1\nbeta =\n# third\ngamma = x = y\n";
    let nc = read(text);
    assert_eq!(nc.to_string_impl(), text);
    assert!(!nc.has_changed());
}

#[test]
fn written_text_is_a_fixed_point() {
    let inputs = [
        "max-jobs= auto",
        "a=b\r\nc =  d  \r\n",
        "  # indented comment   \n\n \t \nkey\t=\tvalue\t\n",
        "# orphan\n\n\nx=1",
        "",
        "\n",
        "=\n",
        " = only value",
    ];
    for input in inputs {
        let once = read(input).to_string_impl();
        let again = read(&once);
        assert_eq!(again.to_string_impl(), once, "input {:?}", input);
        assert!(!again.has_changed(), "input {:?}", input);
    }
    assert_eq!(read("max-jobs= auto").to_string_impl(), "max-jobs = auto\n");
    assert!(read("max-jobs= auto").has_changed());
}

#[test]
fn insert_of_known_key_touches_only_its_record() {
    let text = "# a\nfirst = 1\n\n# b1\n# b2\nsecond = 2\n# c\nthird = 3\n\n# tail\n";
    let mut nc = read(text);
    let previous = nc.insert("second".to_string(), with_comment("22", "one line"));
    assert_eq!(previous, Some("2".to_string()));
    assert_eq!(
        nc.to_string_impl(),
        "# a\nfirst = 1\n\n# one line\nsecond = 22\n# c\nthird = 3\n\n# tail\n"
    );
    assert_eq!(nc.get("first"), Some(&"1".to_string()));
    assert_eq!(nc.get("third"), Some(&"3".to_string()));
    // The record below moved up by one line and is still found where it is.
    nc.insert("third".to_string(), with_comment("33", "c\nd\ne"));
    assert_eq!(
        nc.to_string_impl(),
        "# a\nfirst = 1\n\n# one line\nsecond = 22\n# c\n# d\n# e\nthird = 33\n\n# tail\n"
    );
    nc.insert("first".to_string(), "11".into());
    assert_eq!(
        nc.to_string_impl(),
        "first = 11\n\n# one line\nsecond = 22\n# c\n# d\n# e\nthird = 33\n\n# tail\n"
    );
}

#[test]
fn insert_of_new_key_appends() {
    let mut nc = read("a = 1\n\n# trailing\n");
    assert_eq!(nc.insert("b".to_string(), with_comment("", "why\r\nso")), None);
    assert_eq!(nc.to_string_impl(), "a = 1\n\n# trailing\n# why\n# so\nb =\n");
    assert_eq!(nc.get("b"), Some(&"".to_string()));
    assert_eq!(nc.remove("b".to_string()), Some("".to_string()));
    assert_eq!(nc.to_string_impl(), "a = 1\n\n# trailing\n");
    assert!(!nc.has_changed());
}

#[test]
fn remove_of_unknown_key_changes_nothing() {
    let text = "a = 1\n# c\nb = 2\n";
    let mut nc = read(text);
    assert_eq!(nc.remove("missing".to_string()), None);
    assert_eq!(nc.to_string_impl(), text);
    assert!(!nc.has_changed());
    assert_eq!(nc.get("a"), Some(&"1".to_string()));
    assert_eq!(nc.get("b"), Some(&"2".to_string()));
}

#[test]
fn remove_takes_the_record_and_moves_later_ones_up() {
    let mut nc = read("a = 1\n\n# about b\n# more\nb = 2\n# about c\nc = 3\nd = 4\n");
    assert_eq!(nc.remove("b".to_string()), Some("2".to_string()));
    assert_eq!(nc.to_string_impl(), "a = 1\n\n# about c\nc = 3\nd = 4\n");
    assert_eq!(nc.get("b"), None);
    assert_eq!(nc.remove("c".to_string()), Some("3".to_string()));
    assert_eq!(nc.to_string_impl(), "a = 1\n\nd = 4\n");
    assert_eq!(nc.remove("d".to_string()), Some("4".to_string()));
    assert_eq!(nc.remove("a".to_string()), Some("1".to_string()));
    assert_eq!(nc.to_string_impl(), "\n");
}

#[test]
fn duplicate_key_names_both_lines() {
    let error = NixConf::read_from_str("# c\na = 1\n\nb = 2\n# d\na=3\nnonsense\n")
        .err()
        .unwrap();
    assert_eq!(
        error,
        ParseError::DuplicateKey {
            key: "a".to_string(),
            first_line: 2,
            line: 6,
            text: "a=3".to_string(),
        }
    );
    assert_eq!(
        error.message(),
        "6: Duplicate entry for `a` (first seen on 2): a=3"
    );
    assert!(NixConf::read_from_str("k = 1\nk = 1\n").is_err());
}

#[test]
fn malformed_line_names_its_number() {
    let error = NixConf::read_from_str("a = 1\n\n# c\nnonsense \na = 2\n")
        .err()
        .unwrap();
    assert_eq!(
        error,
        ParseError::MalformedLine {
            line: 4,
            text: "nonsense ".to_string(),
        }
    );
    assert_eq!(error.message(), "4: Malformed line: nonsense ");
    assert_eq!(
        NixConf::read_from_str("\u{a0}").err(),
        Some(ParseError::MalformedLine {
            line: 1,
            text: "\u{a0}".to_string(),
        })
    );
    let mut long = "x = 1\n".to_string();
    for _ in 0..1233 {
        long.push_str("\n");
    }
    long.push_str("k = 1\nbroken\n");
    assert_eq!(
        NixConf::read_from_str(&long).err().unwrap().message(),
        "1236: Malformed line: broken"
    );
}

#[test]
fn blank_lines_and_orphan_comments_are_kept() {
    let nc = read("# orphan one\n# orphan two\n \t\n\r\n# about a  \na = 1\n\n\n");
    assert_eq!(
        nc.to_string_impl(),
        "# orphan one\n# orphan two\n\n\n# about a\na = 1\n\n\n"
    );
    assert!(nc.has_changed());
}

#[test]
fn comment_may_start_after_white_space() {
    let nc = read("  # k = v\nk = w\n");
    assert_eq!(nc.get("k"), Some(&"w".to_string()));
    assert_eq!(nc.get("  # k"), None);
    assert_eq!(nc.to_string_impl(), "  # k = v\nk = w\n");
}

#[test]
fn empty_text_is_written_as_one_line_feed() {
    let nc = read("");
    assert_eq!(nc.to_string_impl(), "\n");
    assert!(nc.has_changed());
    assert_eq!(nc.get(""), None);
}

#[test]
fn key_is_trimmed_at_both_ends() {
    let nc = read("  a  =  b  ");
    assert_eq!(nc.get("a"), Some(&"b".to_string()));
    assert_eq!(nc.get("  a"), None);
    assert_eq!(nc.to_string_impl(), "a = b\n");
    let nc = read(" a=1\n");
    assert_eq!(nc.get("a"), Some(&"1".to_string()));
    assert!(nc.has_changed());
}

#[test]
fn keys_that_differ_in_white_space_around_them_are_one_key() {
    assert_eq!(
        NixConf::read_from_str("a=1\n a=2\n").err(),
        Some(ParseError::DuplicateKey {
            key: "a".to_string(),
            first_line: 1,
            line: 2,
            text: " a=2".to_string(),
        })
    );
    assert!(NixConf::read_from_str("\u{a0}k = 1\nk\t= 2\n").is_err());
    let nc = read("a b = 1\nab = 2\n");
    assert_eq!(nc.get("a b"), Some(&"1".to_string()));
    assert_eq!(nc.get("ab"), Some(&"2".to_string()));
}

#[test]
fn setting_behind_white_space_and_hash_is_a_comment() {
    for text in ["\u{a0}#k = v\n", "\u{0b}# k = v\n", " \t#k=v\n"] {
        let nc = read(text);
        assert_eq!(nc.get("#k"), None, "{:?}", text);
        assert_eq!(nc.get("# k"), None, "{:?}", text);
        let once = nc.to_string_impl();
        assert_eq!(read(&once).to_string_impl(), once);
    }
}

#[test]
fn unicode_white_space_is_trimmed() {
    let nc = read("a\u{2003}=\u{a0}b c\u{3000}\n");
    assert_eq!(nc.get("a"), Some(&"b c".to_string()));
    assert_eq!(nc.to_string_impl(), "a = b c\n");
}

#[test]
fn document_can_be_printed_for_debugging() {
    let shown = format!("{:?}", read("a = 1\n"));
    assert!(shown.contains("NixConf"));
    assert!(shown.contains("a = 1"));
}

#[test]
fn commented_setting_from_str_has_no_comment() {
    let setting: CommentedSetting = "value".into();
    assert_eq!(setting.value, "value");
    assert_eq!(setting.comment, "");
}

#[test]
fn digest_is_blake2b() {
    let expected = "ba80a53f981c4d0d6a2797b69f12f6e94c212f14685ac4b74b12bb6fdbffa2d1\
                    7d87c5392aab792dc252d5de4533cc9518d38aa8dbf1925ab92386edd4009923";
    let hex: String = hashit("abc").iter().map(|b| format!("{:02x}", b)).collect();
    assert_eq!(hex, expected);
    assert_eq!(hashit("").len(), 64);
    assert_eq!(hashit("a longer text, more than one block of the hash: ".repeat(9).as_str()).len(), 64);
}
