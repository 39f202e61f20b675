use kraven::config::validate_profile_name;

#[test]
fn test_valid_profile_names() {
    assert!(validate_profile_name("dev").is_ok());
    assert!(validate_profile_name("prod-1").is_ok());
    assert!(validate_profile_name("my_profile").is_ok());
    assert!(validate_profile_name("v1.2.3").is_ok());
    assert!(validate_profile_name("AWS_PROD").is_ok());
}

#[test]
fn test_empty_profile_name() {
    assert!(validate_profile_name("").is_err());
}

#[test]
fn test_path_traversal_blocked() {
    assert!(validate_profile_name(".").is_err());
    assert!(validate_profile_name("..").is_err());
    assert!(validate_profile_name("../etc").is_err());
    assert!(validate_profile_name("foo/bar").is_err());
}

#[test]
fn test_leading_dash_blocked() {
    assert!(validate_profile_name("-flag").is_err());
    assert!(validate_profile_name("--help").is_err());
}

#[test]
fn test_special_chars_blocked() {
    assert!(validate_profile_name("foo bar").is_err());
    assert!(validate_profile_name("foo;bar").is_err());
    assert!(validate_profile_name("$(whoami)").is_err());
}
