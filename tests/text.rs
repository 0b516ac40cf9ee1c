use rsh::subst::{replace_exe, split_text, substitute, substitution_result};
use rsh::text::{decimal_string, parse_u32, signed_decimal_string};

#[test]
fn substitution_strips_one_newline() {
    assert_eq!(substitution_result(Some("x\n".to_string())), "x");
    assert_eq!(substitution_result(Some("x\r\n".to_string())), "x");
    assert_eq!(substitution_result(Some("x\n\n".to_string())), "x\n");
    assert_eq!(substitution_result(Some("x".to_string())), "x");
    assert_eq!(substitution_result(None), "");
}

#[test]
fn replace_exe_runs_the_command() {
    assert_eq!(replace_exe("printf x".to_string()), Ok("x".to_string()));
    assert_eq!(replace_exe("echo a b".to_string()), Ok("a b".to_string()));
    assert!(replace_exe("no-such-program-here".to_string()).is_err());
}

#[test]
fn split_keeps_empty_pieces() {
    assert_eq!(split_text("a  b", ' '), vec!["a", "", "b"]);
    assert_eq!(split_text("", '='), vec![""]);
    assert_eq!(split_text("k=v=w", '='), vec!["k", "v", "w"]);
}

#[test]
fn decimal_texts() {
    assert_eq!(decimal_string(0), "0");
    assert_eq!(decimal_string(4294967295), "4294967295");
    assert_eq!(signed_decimal_string(-17), "-17");
    assert_eq!(signed_decimal_string(i64::MIN), "-9223372036854775808");
}

#[test]
fn u32_texts() {
    assert_eq!(parse_u32("99"), Some(99));
    assert_eq!(parse_u32("+7"), Some(7));
    assert_eq!(parse_u32("4294967295"), Some(4294967295));
    assert_eq!(parse_u32("4294967296"), None);
    assert_eq!(parse_u32(""), None);
    assert_eq!(parse_u32("+"), None);
    assert_eq!(parse_u32("1a"), None);
    assert_eq!(parse_u32(" 1"), None);
}

#[test]
fn substitute_notes_failures() {
    let mut notes = Vec::new();
    assert_eq!(substitute("printf y\\n".to_string(), &mut notes), "y");
    assert!(notes.is_empty());
    assert_eq!(substitute("no-such-program-here".to_string(), &mut notes), "");
    assert_eq!(notes.len(), 1);
}
