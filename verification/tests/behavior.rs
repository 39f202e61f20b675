use kraven::config::get_profile_path;
use kraven::config::is_completion_match;
use kraven::config::validate_profile_name;
use kraven::errors::ErrorKind;
use kraven::errors::NameError;
use kraven::mask::mask_value;
use kraven::name::is_valid_env_name;
use kraven::profile::parse_env_file;
use kraven::profile::Profile;
use kraven::render::render_entry;
use kraven::render::render_profile;
use kraven::value::parse_value;
use kraven::value::unescape_double_quoted;

#[test]
fn test_name_validator_accepts_valid_names() {
    assert!(is_valid_env_name("_"));
    assert!(is_valid_env_name("A"));
    assert!(is_valid_env_name("_abc123"));
    assert!(is_valid_env_name("PATH"));
    assert!(is_valid_env_name("lower_case_9"));
}

#[test]
fn test_name_validator_rejects_invalid_names() {
    assert!(!is_valid_env_name(""));
    assert!(!is_valid_env_name("9a"));
    assert!(!is_valid_env_name("a b"));
    assert!(!is_valid_env_name("a-b"));
    assert!(!is_valid_env_name("é"));
}

#[test]
fn test_first_equals_wins() {
    let vars = parse_env_file("KEY=a=b", "p").unwrap();
    assert_eq!(vars.get("KEY"), Some("a=b".to_string()));
}

#[test]
fn test_duplicate_key_last_wins() {
    let vars = parse_env_file("KEY=a\nKEY=b", "p").unwrap();
    assert_eq!(vars.len(), 1);
    assert_eq!(vars.get("KEY"), Some("b".to_string()));
    assert!(vars.contains_key("KEY"));
    assert!(!vars.contains_key("MISSING"));
}

#[test]
fn test_key_and_value_are_trimmed() {
    let vars = parse_env_file("  KEY  =  value  ", "p").unwrap();
    assert_eq!(vars.get("KEY"), Some("value".to_string()));
}

#[test]
fn test_empty_content_yields_empty_profile() {
    let vars = parse_env_file("", "p").unwrap();
    assert_eq!(vars.len(), 0);
    assert!(vars.is_empty());
}

#[test]
fn test_missing_equals_error_position() {
    let e = parse_env_file("GOOD=1\nBAD LINE", "conf.env").unwrap_err();
    assert_eq!(e.line, 2);
    assert_eq!(e.path, "conf.env");
    assert_eq!(e.kind, ErrorKind::MissingAssignmentOperator);
}

#[test]
fn test_empty_name_error() {
    let e = parse_env_file("=value", "p").unwrap_err();
    assert_eq!(e.line, 1);
    assert_eq!(e.kind, ErrorKind::EmptyVariableName);
}

#[test]
fn test_invalid_name_reports_offending_char() {
    let e = parse_env_file("A-B=1", "p").unwrap_err();
    assert_eq!(e.kind, ErrorKind::InvalidVariableName('-'));
    let e2 = parse_env_file("1X=2", "p").unwrap_err();
    assert_eq!(e2.kind, ErrorKind::InvalidVariableName('1'));
}

#[test]
fn test_unclosed_quote_error_kind() {
    let e = parse_env_file("K=\"x", "p").unwrap_err();
    assert_eq!(e.kind, ErrorKind::UnclosedQuote);
    let e2 = parse_env_file("K='x", "p").unwrap_err();
    assert_eq!(e2.kind, ErrorKind::UnclosedQuote);
}

#[test]
fn test_lone_quote_is_unclosed() {
    let e = parse_env_file("K=\"", "p").unwrap_err();
    assert_eq!(e.kind, ErrorKind::UnclosedQuote);
}

#[test]
fn test_fail_fast_stops_at_first_error() {
    let e = parse_env_file("NO_EQUALS\n1BAD=x", "p").unwrap_err();
    assert_eq!(e.line, 1);
    assert_eq!(e.kind, ErrorKind::MissingAssignmentOperator);
}

#[test]
fn test_parse_value_quoted() {
    assert_eq!(parse_value("\"x y\"", "p", 3).unwrap(), "x y");
    assert_eq!(parse_value("'x y'", "p", 3).unwrap(), "x y");
    assert_eq!(parse_value("plain", "p", 3).unwrap(), "plain");
    assert_eq!(parse_value("", "p", 3).unwrap(), "");
}

#[test]
fn test_parse_value_unclosed_position() {
    let e = parse_value("'oops", "file.env", 7).unwrap_err();
    assert_eq!(e.line, 7);
    assert_eq!(e.path, "file.env");
    assert_eq!(e.kind, ErrorKind::UnclosedQuote);
}

#[test]
fn test_unescape_keeps_unknown_escapes() {
    assert_eq!(unescape_double_quoted(r"a\nb"), "a\nb");
    assert_eq!(unescape_double_quoted(r"a\qb"), r"a\qb");
    assert_eq!(unescape_double_quoted(r"end\"), "end\\");
    assert_eq!(unescape_double_quoted(r#"say \"hi\""#), "say \"hi\"");
}

#[test]
fn test_unicode_adjacent_to_escapes() {
    let vars = parse_env_file("KEY=\"日\\n本\"", "p").unwrap();
    assert_eq!(vars.get("KEY"), Some("日\n本".to_string()));
}

#[test]
fn test_mask_five_chars() {
    assert_eq!(mask_value("abcde"), "ab*de");
}

#[test]
fn test_profile_parse_and_error_path() {
    let p = Profile::parse("A=1", "my.env").unwrap();
    assert_eq!(p.vars.get("A"), Some("1".to_string()));
    let e = Profile::parse("oops", "my.env").unwrap_err();
    assert_eq!(e.path, "my.env");
}

#[test]
fn test_profile_name_error_kinds() {
    assert_eq!(validate_profile_name("").unwrap_err(), NameError::Empty);
    assert_eq!(validate_profile_name(".").unwrap_err(), NameError::Reserved);
    assert_eq!(validate_profile_name("..").unwrap_err(), NameError::Reserved);
    assert_eq!(validate_profile_name("-x").unwrap_err(), NameError::LeadingDash);
    assert_eq!(validate_profile_name("a/b").unwrap_err(), NameError::InvalidChar('/'));
    assert_eq!(validate_profile_name("...").is_ok(), true);
}

#[test]
fn test_get_profile_path_joins() {
    assert_eq!(get_profile_path("/home/u/.config/kraven", "dev").unwrap(), "/home/u/.config/kraven/dev");
    assert!(get_profile_path("/tmp", "../etc").is_err());
}

#[test]
fn test_completion_matching() {
    assert!(is_completion_match("dev", "d"));
    assert!(is_completion_match("dev", ""));
    assert!(is_completion_match("dev", "dev"));
    assert!(!is_completion_match("dev", "de v"));
    assert!(!is_completion_match("dev", "devel"));
    assert!(!is_completion_match("prod", "dev"));
    assert!(!is_completion_match(".hidden", ""));
    assert!(!is_completion_match(".hidden", ".h"));
}

#[test]
fn test_render_entry_quotes_when_needed() {
    assert_eq!(render_entry("K", "v"), "K=v");
    assert_eq!(render_entry("K", ""), "K=");
    assert_eq!(render_entry("K", "a b"), "K=\"a b\"");
    assert_eq!(render_entry("K", "say \"hi\""), "K=\"say \\\"hi\\\"\"");
    assert_eq!(render_entry("K", "it's"), "K=\"it's\"");
}

#[test]
fn test_render_parse_round_trip() {
    let content = "B=with space\nA=plain\nC=\"say \\\"hi\\\"\"\nD='single here'";
    let vars = parse_env_file(content, "p").unwrap();
    let shown = render_profile(&vars);
    let again = parse_env_file(shown.as_str(), "p").unwrap();
    assert_eq!(again.len(), vars.len());
    assert_eq!(again.get("A"), vars.get("A"));
    assert_eq!(again.get("B"), vars.get("B"));
    assert_eq!(again.get("C"), vars.get("C"));
    assert_eq!(again.get("D"), vars.get("D"));
    assert_eq!(again.get("C"), Some("say \"hi\"".to_string()));
}

#[test]
fn test_comment_with_leading_whitespace_is_skipped() {
    let vars = parse_env_file("   # indented comment\nK=1", "p").unwrap();
    assert_eq!(vars.len(), 1);
    assert_eq!(vars.get("K"), Some("1".to_string()));
}

#[test]
fn test_crlf_line_endings() {
    let vars = parse_env_file("A=1\r\nB=2\r\n", "p").unwrap();
    assert_eq!(vars.len(), 2);
    assert_eq!(vars.get("A"), Some("1".to_string()));
    assert_eq!(vars.get("B"), Some("2".to_string()));
}
