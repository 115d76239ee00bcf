use nix_installer::nixconf::NixConf;
use proptest::strategy::Strategy;
use proptest::string::string_regex;
use proptest::test_runner::{TestCaseError, TestRunner};

fn check<F: Fn(&str) -> bool>(pattern: &str, holds: F) {
    let strategy = string_regex(pattern).unwrap();
    let mut runner = TestRunner::deterministic();
    let result = runner.run(&strategy, |s| {
        if holds(&s) {
            Ok(())
        } else {
            Err(TestCaseError::fail(format!("fails for {:?}", s)))
        }
    });
    assert!(result.is_ok(), "{:?}", result);
}

#[test]
fn single_clean_property_roundtrips() {
    check(r#"(?:# .*\S\n)*\w+ = \S.*\S\n"#, |s| {
        let nc = NixConf::read_from_str(s).unwrap();
        s == nc.to_string_impl() && !nc.has_changed()
    });
}

#[test]
fn single_unclean_property_does_not_roundtrips() {
    check(
        r#"(?:#.*\S\n)*(?:\w+[^ \n]*=[^\n]*|\w.*=[^ \n].*)\S\n"#,
        |s| {
            let nc = NixConf::read_from_str(s).unwrap();
            s != nc.to_string_impl() && nc.has_changed()
        },
    );
}

#[test]
fn whatever_is_read_is_written_as_a_fixed_point() {
    check(r#"(?:[ \t]*(?:#[^\n]*)?\r?\n|[a-z \t]*=[^\n]*\n){0,8}"#, |s| {
        match NixConf::read_from_str(s) {
            Err(_) => true,
            Ok(nc) => {
                let once = nc.to_string_impl();
                match NixConf::read_from_str(&once) {
                    Err(_) => false,
                    Ok(again) => again.to_string_impl() == once && !again.has_changed(),
                }
            }
        }
    });
}
