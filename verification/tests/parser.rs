use kraven::profile::parse_env_file;

#[test]
fn test_parse_simple_values() {
    let content = "KEY=value\nANOTHER=123";
    let vars = parse_env_file(content, "test.env").unwrap();
    assert_eq!(vars.get("KEY"), Some("value".to_string()));
    assert_eq!(vars.get("ANOTHER"), Some("123".to_string()));
}

#[test]
fn test_parse_comments_and_empty_lines() {
    let content = "# This is a comment\nKEY=value\n\n# Another comment\nKEY2=value2";
    let vars = parse_env_file(content, "test.env").unwrap();
    assert_eq!(vars.len(), 2);
    assert_eq!(vars.get("KEY"), Some("value".to_string()));
    assert_eq!(vars.get("KEY2"), Some("value2".to_string()));
}

#[test]
fn test_parse_double_quoted_value() {
    let content = "KEY=\"value with spaces\"";
    let vars = parse_env_file(content, "test.env").unwrap();
    assert_eq!(vars.get("KEY"), Some("value with spaces".to_string()));
}

#[test]
fn test_parse_single_quoted_value() {
    let content = "KEY='literal $value'";
    let vars = parse_env_file(content, "test.env").unwrap();
    assert_eq!(vars.get("KEY"), Some("literal $value".to_string()));
}

#[test]
fn test_parse_empty_value() {
    let content = "EMPTY=";
    let vars = parse_env_file(content, "test.env").unwrap();
    assert_eq!(vars.get("EMPTY"), Some(String::new()));
}

#[test]
fn test_invalid_line_missing_equals() {
    let content = "INVALID_LINE";
    let result = parse_env_file(content, "test.env");
    assert!(result.is_err());
}

#[test]
fn test_invalid_var_name_starts_with_digit() {
    let content = "1INVALID=value";
    let result = parse_env_file(content, "test.env");
    assert!(result.is_err());
}

#[test]
fn test_valid_var_name_with_underscore() {
    let content = "_VALID=value\nALSO_VALID=value2";
    let vars = parse_env_file(content, "test.env").unwrap();
    assert_eq!(vars.get("_VALID"), Some("value".to_string()));
    assert_eq!(vars.get("ALSO_VALID"), Some("value2".to_string()));
}

#[test]
fn test_unclosed_quote() {
    let content = "KEY=\"unclosed";
    let result = parse_env_file(content, "test.env");
    assert!(result.is_err());
}

#[test]
fn test_escaped_quotes_in_double_quoted() {
    let content = r#"KEY="value with \" escaped quote""#;
    let vars = parse_env_file(content, "test.env").unwrap();
    assert_eq!(vars.get("KEY"), Some("value with \" escaped quote".to_string()));
}

#[test]
fn test_escape_sequences() {
    let content = r#"KEY="line1\nline2\ttabbed\\backslash""#;
    let vars = parse_env_file(content, "test.env").unwrap();
    assert_eq!(vars.get("KEY"), Some("line1\nline2\ttabbed\\backslash".to_string()));
}

#[test]
fn test_single_quotes_no_escape() {
    // Single quotes should not process escapes
    let content = r"KEY='literal \n not newline'";
    let vars = parse_env_file(content, "test.env").unwrap();
    assert_eq!(vars.get("KEY"), Some(r"literal \n not newline".to_string()));
}

#[test]
fn test_utf8_in_values() {
    let content = "KEY=café\nKEY2=\"日本語\"";
    let vars = parse_env_file(content, "test.env").unwrap();
    assert_eq!(vars.get("KEY"), Some("café".to_string()));
    assert_eq!(vars.get("KEY2"), Some("日本語".to_string()));
}
