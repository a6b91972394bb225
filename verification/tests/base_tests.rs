use docker_tray::cli::{last_error, unit_result, CliOutput};
use docker_tray::json::{get_exec, is_null, pick, pick_i64, pick_str, val_string, JsonValue};
use docker_tray::provider::{ProviderKind, ProviderState};
use docker_tray::text::{
    chars_of, contains_chars, decimal_chars, find_chars, has_prefix, is_whitespace,
    join_range, parse_unsigned_chars, split_lines, split_words, strip_all_prefix, strip_all_suffix,
    take_prefix, text_less, trim_chars,
};

fn cs(s: &str) -> Vec<char> {
    s.chars().collect()
}

fn words_of(v: Vec<Vec<char>>) -> Vec<String> {
    v.into_iter().map(|w| w.into_iter().collect()).collect()
}

fn obj(entries: Vec<(&str, JsonValue)>) -> JsonValue {
    JsonValue::Object {
        entries: entries.into_iter().map(|(k, v)| (k.to_string(), v)).collect(),
        text: "{\"k\":1}".to_string(),
    }
}

#[test]
fn provider_defaults_and_api() {
    assert_eq!(ProviderKind::default(), ProviderKind::Docker);
    assert!(ProviderKind::Docker.uses_docker_api());
    assert!(ProviderKind::Colima.uses_docker_api());
    assert!(!ProviderKind::Apple.uses_docker_api());
}

#[test]
fn provider_state_reads_back_what_was_set() {
    let mut s = ProviderState::new(ProviderKind::Docker);
    assert_eq!(s.get(), ProviderKind::Docker);
    s.set(ProviderKind::Apple);
    assert_eq!(s.get(), ProviderKind::Apple);
    s.set(ProviderKind::Colima);
    assert_eq!(s.get(), ProviderKind::Colima);
}

#[test]
fn last_error_line() {
    assert_eq!(last_error("first\nsecond\n  \n"), "second");
    assert_eq!(last_error(""), "Unknown container CLI error");
    assert_eq!(last_error("only\r\n"), "only");
}

#[test]
fn unit_results() {
    let o = |ok: bool, err: &str| CliOutput { stdout: String::new(), stderr: err.to_string(), success: ok, status: String::new() };
    assert_eq!(unit_result(Ok(o(true, "noise"))), Ok(()));
    assert_eq!(unit_result(Ok(o(false, "a\nb\n"))), Err("b".to_string()));
    assert_eq!(unit_result(Err("spawn".to_string())), Err("spawn".to_string()));
    assert_eq!(docker_tray::cli::concat("ab", "cd"), "abcd");
}

#[test]
fn json_lookups() {
    let v = obj(vec![
        ("a", JsonValue::Null),
        ("b", JsonValue::Number { text: "12".to_string(), integer: Some(12) }),
        ("c", JsonValue::Str("x".to_string())),
        ("d", JsonValue::Bool(false)),
        ("e", JsonValue::Number { text: "1.5".to_string(), integer: None }),
    ]);
    assert_eq!(pick(&v, &["a", "c"]), Some(&JsonValue::Str("x".to_string())));
    assert_eq!(pick(&v, &["zz"]), None);
    assert_eq!(pick_str(&v, &["a", "b"]), "12");
    assert_eq!(pick_str(&v, &["d"]), "false");
    assert_eq!(pick_str(&v, &["a"]), "");
    assert_eq!(pick_i64(&v, &["b"]), 12);
    assert_eq!(pick_i64(&v, &["e"]), 0);
    assert_eq!(pick_i64(&v, &["c"]), 0);
    assert_eq!(val_string(&JsonValue::Null), "null");
    assert_eq!(val_string(&v), "{\"k\":1}");
    assert!(is_null(&JsonValue::Null));
    assert!(get_exec(&JsonValue::Str("s".to_string()), "a").is_none());
    assert_eq!(get_exec(&v, "a"), Some(&JsonValue::Null));
}

#[test]
fn text_trimming_and_searching() {
    assert_eq!(trim_chars(&cs(" \t a b \n")), cs("a b"));
    assert_eq!(trim_chars(&cs("\u{3000}x\u{a0}")), cs("x"));
    assert!(is_whitespace('\u{2003}'));
    assert!(!is_whitespace('x'));
    assert_eq!(find_chars(&cs("a msg=b msg=c"), &cs("msg=")), Some(2));
    assert_eq!(find_chars(&cs("abc"), &cs("abcd")), None);
    assert!(contains_chars(&cs("colima daemon"), &cs("daemon")));
    assert!(has_prefix(&cs("cpus: 2"), &cs("cpus:")));
    assert_eq!(take_prefix(&cs("abc"), 12), cs("abc"));
    assert_eq!(strip_all_prefix(&cs("sha256:sha256:ab"), &cs("sha256:")), cs("ab"));
    assert_eq!(strip_all_suffix(&cs("\"x\"\""), &cs("\"")), cs("\"x"));
    assert_eq!(chars_of("héllo"), cs("héllo"));
}

#[test]
fn text_lines_and_words() {
    assert_eq!(words_of(split_lines(&cs("a\r\nb\n\nc"))), vec!["a", "b", "", "c"]);
    assert_eq!(words_of(split_lines(&cs("a\n"))), vec!["a"]);
    assert!(split_lines(&cs("")).is_empty());
    assert_eq!(words_of(split_words(&cs("  one two\tthree  "))), vec!["one", "two", "three"]);
    let parts: Vec<Vec<char>> = vec![cs("a"), cs("b"), cs("c")];
    assert_eq!(join_range(&parts, 1, 3, &cs(" ")), cs("b c"));
}

#[test]
fn numbers() {
    assert_eq!(decimal_chars(0), cs("0"));
    assert_eq!(decimal_chars(4096), cs("4096"));
    assert_eq!(parse_unsigned_chars(&cs("+42"), 100), Some(42));
    assert_eq!(parse_unsigned_chars(&cs("101"), 100), None);
    assert_eq!(parse_unsigned_chars(&cs(""), 100), None);
    assert_eq!(parse_unsigned_chars(&cs("4x"), 100), None);
    assert_eq!(parse_unsigned_chars(&cs("-1"), 100), None);
}

#[test]
fn text_order() {
    assert!(text_less("alpha", "beta"));
    assert!(text_less("ab", "abc"));
    assert!(!text_less("abc", "abc"));
    assert!(text_less("Zeta", "alpha"));
}
