use png2wasm4src::sanitize_variable_name;

#[test]
fn sane_name() {
    let sanitized_name = sanitize_variable_name("some_variable");
    let expected = "SOME_VARIABLE";
    assert_eq!(sanitized_name, expected);
}

#[test]
fn sane_name_leading_with_underscore() {
    let sanitized_name = sanitize_variable_name("__some_variable");
    let expected = "__SOME_VARIABLE";
    assert_eq!(sanitized_name, expected);
}

#[test]
fn name_with_space() {
    let sanitized_name = sanitize_variable_name("some variable");
    let expected = "SOMEVARIABLE";
    assert_eq!(sanitized_name, expected);
}

#[test]
fn name_leading_with_digit() {
    let sanitized_name = sanitize_variable_name("123some_variable");
    let expected = "SOME_VARIABLE";
    assert_eq!(sanitized_name, expected);
}

#[test]
fn name_with_invalid_characters() {
    let sanitized_name = sanitize_variable_name("some*variable^");
    let expected = "SOMEVARIABLE";
    assert_eq!(sanitized_name, expected);
}

#[test]
fn name_with_non_ascii_characters() {
    let sanitized_name = sanitize_variable_name("sømæ_våriablæ");
    let expected = "SM_VRIABL";
    assert_eq!(sanitized_name, expected);
}

#[test]
fn name_with_hyphens_becomes_underscores() {
    assert_eq!(sanitize_variable_name("dark-forest-2"), "DARK_FOREST_2");
}

#[test]
fn name_without_identifier_characters_is_empty() {
    assert_eq!(sanitize_variable_name(""), "");
    assert_eq!(sanitize_variable_name("123 *"), "");
}

#[test]
fn name_leading_with_hyphen_keeps_underscore() {
    assert_eq!(sanitize_variable_name("-9lives"), "_9LIVES");
}
