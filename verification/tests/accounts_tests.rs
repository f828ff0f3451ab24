use cognito_login::accounts::{parse_account_list, parse_custom_format};

#[test]
fn structured_json_single_account() {
    let raw = "[{\"username\":\"a\",\"password\":\"b\"}]";
    let parsed = parse_account_list(raw).expect("structured parse should succeed");
    assert_eq!(parsed.len(), 1);
    assert_eq!(parsed[0].username, "a");
    assert_eq!(parsed[0].password, "b");
    // The fallback parser cannot read this input: the structured decode won.
    assert!(parse_custom_format(raw).is_none());
}

#[test]
fn structured_json_empty_array_wins_over_fallback() {
    // Valid structured input with no entries: the structured decode wins
    // even though the fallback would fail on the same text.
    let parsed = parse_account_list("[]").expect("empty array should decode");
    assert_eq!(parsed.len(), 0);
    assert!(parse_custom_format("[]").is_none());
}

#[test]
fn custom_format_two_accounts() {
    let raw = "[{username:\"a\",password:\"b\"},{username:\"c\",password:\"d\"}]";
    let parsed = parse_custom_format(raw).expect("custom parse should succeed");
    assert_eq!(parsed.len(), 2);
    assert_eq!(parsed[0].username, "a");
    assert_eq!(parsed[0].password, "b");
    assert_eq!(parsed[1].username, "c");
    assert_eq!(parsed[1].password, "d");
    // The same list through the full parser: the structured decode fails
    // on unquoted keys, the fallback succeeds.
    let full = parse_account_list(raw).expect("fallback should succeed");
    assert_eq!(full.len(), 2);
    assert_eq!(full[0].username, "a");
    assert_eq!(full[1].password, "d");
}

#[test]
fn custom_format_unquoted_values() {
    let parsed = parse_custom_format("[{username:a,password:b}]").expect("should parse");
    assert_eq!(parsed.len(), 1);
    assert_eq!(parsed[0].username, "a");
    assert_eq!(parsed[0].password, "b");
}

#[test]
fn custom_format_missing_password_fails_whole_list() {
    let raw = "[{username:\"a\"},{username:\"c\",password:\"d\"}]";
    assert!(parse_custom_format(raw).is_none());
    assert!(parse_account_list(raw).is_none());
}

#[test]
fn custom_format_missing_username_fails_whole_list() {
    let raw = "[{password:\"b\"}]";
    assert!(parse_custom_format(raw).is_none());
    assert!(parse_account_list(raw).is_none());
}

#[test]
fn empty_string_yields_no_accounts() {
    assert!(parse_account_list("").is_none());
    assert!(parse_custom_format("").is_none());
}

#[test]
fn garbage_fails_both_parsers() {
    assert!(parse_account_list("not an account list").is_none());
}

#[test]
fn structured_json_missing_field_falls_back_then_fails() {
    // Structured syntax but a missing password: the structured decode
    // rejects it, and so does the fallback (its keys stay quoted).
    let raw = "[{\"username\":\"a\"}]";
    assert!(parse_account_list(raw).is_none());
}

#[test]
fn custom_format_keys_are_exact() {
    // The custom format does not trim inside chunks: a space before the
    // key makes it a different key, and the whole list fails.
    assert!(parse_custom_format("[{username:a, password:b}]").is_none());
    // Quoted keys are not the required bare keys.
    assert!(parse_custom_format("[{\"username\":a,\"password\":b}]").is_none());
}

#[test]
fn custom_format_value_keeps_text_after_first_colon() {
    // A fragment splits at its first colon only.
    let parsed = parse_custom_format("[{username:a,password:b:c}]").expect("should parse");
    assert_eq!(parsed[0].password, "b:c");
}

#[test]
fn custom_format_strips_one_quote_layer_only() {
    let parsed = parse_custom_format("[{username:\"\"a\"\",password:b}]").expect("should parse");
    assert_eq!(parsed[0].username, "\"a\"");
}

#[test]
fn structured_json_with_whitespace() {
    let raw = " [ { \"username\" : \"a\" , \"password\" : \"b\" } ] ";
    let parsed = parse_account_list(raw).expect("whitespace is fine in structured format");
    assert_eq!(parsed.len(), 1);
    assert_eq!(parsed[0].username, "a");
    assert_eq!(parsed[0].password, "b");
}
