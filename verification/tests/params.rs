use rust_flask::RouteParams;

#[test]
fn new_params_are_empty() {
    let params = RouteParams::new();
    assert_eq!(params.get("id"), None);
    assert_eq!(params.params.len(), 0);
    assert!(params.params.is_empty());
}

#[test]
fn default_params_are_empty() {
    let params = RouteParams::default();
    assert_eq!(params.get(""), None);
    assert_eq!(params.params.len(), 0);
}

#[test]
fn inserted_value_is_read_back() {
    let mut params = RouteParams::new();
    params.insert("id".to_string(), "42".to_string());
    assert_eq!(params.get("id"), Some("42"));
    assert_eq!(params.get("ID"), None);
    assert_eq!(params.get("i"), None);
    assert_eq!(params.params.len(), 1);
}

#[test]
fn inserted_value_is_read_back_byte_for_byte() {
    let value = "a-b_c.d~e%2Ff g\u{e9}\u{1f980}{}*";
    let mut params = RouteParams::new();
    params.insert("name".to_string(), value.to_string());
    assert_eq!(params.get("name").unwrap().as_bytes(), value.as_bytes());
}

#[test]
fn second_insert_under_a_key_replaces_the_first() {
    let mut params = RouteParams::new();
    params.insert("id".to_string(), "1".to_string());
    params.insert("id".to_string(), "2".to_string());
    assert_eq!(params.get("id"), Some("2"));
    assert_eq!(params.params.len(), 1);
}

#[test]
fn keys_do_not_disturb_each_other() {
    let mut params = RouteParams::new();
    params.insert("a".to_string(), "1".to_string());
    params.insert("b".to_string(), "2".to_string());
    params.insert("".to_string(), "3".to_string());
    assert_eq!(params.get("a"), Some("1"));
    assert_eq!(params.get("b"), Some("2"));
    assert_eq!(params.get(""), Some("3"));
    assert_eq!(params.params.len(), 3);
}

#[test]
fn params_field_gives_the_map() {
    let mut params = RouteParams::new();
    params.insert("id".to_string(), "123".to_string());
    let user_id = params.params.get("id").map(|s| s.as_str()).unwrap_or("unknown");
    assert_eq!(user_id, "123");
    let other = params.params.get("nope").map(|s| s.as_str()).unwrap_or("unknown");
    assert_eq!(other, "unknown");
}
