use rust_flask::extract_path_params;
use rust_flask::matcher::key_pattern_is;
use rust_flask::match_route_pattern;
use rust_flask::RouteParams;

fn bound(params: &Option<RouteParams>, name: &str) -> Option<String> {
    match params {
        Some(p) => p.get(name).map(|text| text.to_string()),
        None => None,
    }
}

#[test]
fn literal_pattern_matches_itself() {
    let params = match_route_pattern("/hello", "/hello", "GET");
    assert!(params.is_some());
    assert_eq!(params.unwrap().params.len(), 0);
}

#[test]
fn literal_pattern_rejects_other_text() {
    assert!(match_route_pattern("/hello", "/world", "GET").is_none());
    assert!(match_route_pattern("/hello", "/Hello", "GET").is_none());
    assert!(match_route_pattern("/hello", "/hell", "GET").is_none());
    assert!(match_route_pattern("/hello", "/helloo", "GET").is_none());
}

#[test]
fn parameter_binds_its_segment() {
    let params = match_route_pattern("/users/{id}", "/users/42", "GET");
    assert_eq!(bound(&params, "id"), Some("42".to_string()));
    assert_eq!(params.unwrap().params.len(), 1);
}

#[test]
fn two_parameters_bind_their_segments() {
    let params = match_route_pattern("/users/{id}/posts/{post_id}", "/users/7/posts/99", "GET");
    assert_eq!(bound(&params, "id"), Some("7".to_string()));
    assert_eq!(bound(&params, "post_id"), Some("99".to_string()));
    assert_eq!(params.unwrap().params.len(), 2);
}

#[test]
fn literal_between_parameters_must_agree() {
    assert!(match_route_pattern("/users/{id}/posts/{post_id}", "/users/7/notes/99", "GET").is_none());
}

#[test]
fn other_segment_count_never_matches() {
    assert!(match_route_pattern("/users/{id}", "/users", "GET").is_none());
    assert!(match_route_pattern("/users/{id}", "/users/1/2", "GET").is_none());
    assert!(match_route_pattern("/{a}/{b}", "/x", "GET").is_none());
    assert!(match_route_pattern("/users/{id}", "users/1", "GET").is_none());
    assert!(match_route_pattern("/users", "/users/", "GET").is_none());
}

#[test]
fn parameter_accepts_an_empty_segment() {
    let params = match_route_pattern("/users/{id}", "/users/", "GET");
    assert_eq!(bound(&params, "id"), Some("".to_string()));
}

#[test]
fn parameter_accepts_unusual_characters() {
    let params = match_route_pattern("/files/{name}", "/files/a b%20c.tar.gz?x=1&y={z}", "GET");
    assert_eq!(bound(&params, "name"), Some("a b%20c.tar.gz?x=1&y={z}".to_string()));
}

#[test]
fn parameter_value_is_read_back_character_for_character() {
    let value = "h\u{e9}llo-w\u{f6}rld_\u{4f60}\u{597d}~1.2*";
    let path = format!("/greet/{}", value);
    let params = match_route_pattern("/greet/{who}", &path, "GET").unwrap();
    assert_eq!(params.get("who"), Some(value));
    assert_eq!(params.get("who").unwrap().as_bytes(), value.as_bytes());
}

#[test]
fn parameter_name_outside_ascii() {
    let params = match_route_pattern("/{stra\u{df}e}/x", "/Hauptstra\u{df}e/x", "GET");
    assert_eq!(bound(&params, "stra\u{df}e"), Some("Hauptstra\u{df}e".to_string()));
}

#[test]
fn later_parameter_of_the_same_name_wins() {
    let params = match_route_pattern("/{a}/{a}", "/first/second", "GET");
    assert_eq!(bound(&params, "a"), Some("second".to_string()));
    assert_eq!(params.unwrap().params.len(), 1);
}

#[test]
fn braces_that_do_not_wrap_are_literal() {
    assert!(match_route_pattern("/{id", "/42", "GET").is_none());
    assert!(match_route_pattern("/id}", "/42", "GET").is_none());
    assert!(match_route_pattern("/{", "/42", "GET").is_none());
    assert!(match_route_pattern("/}", "/42", "GET").is_none());
    let same = match_route_pattern("/{id", "/{id", "GET");
    assert!(same.is_some());
    assert_eq!(same.unwrap().params.len(), 0);
    assert!(match_route_pattern("/a{id}", "/a42", "GET").is_none());
}

#[test]
fn empty_braces_bind_the_empty_name() {
    let params = match_route_pattern("/{}", "/42", "GET");
    assert_eq!(bound(&params, ""), Some("42".to_string()));
}

#[test]
fn empty_pattern_matches_the_empty_path_only() {
    assert!(match_route_pattern("", "", "GET").is_some());
    assert!(match_route_pattern("", "/", "GET").is_none());
    assert!(match_route_pattern("/", "", "GET").is_none());
    assert!(match_route_pattern("/", "/", "GET").is_some());
}

#[test]
fn key_with_method_matches_that_method_only() {
    let params = match_route_pattern("GET /users/{id}", "/users/42", "GET");
    assert_eq!(bound(&params, "id"), Some("42".to_string()));
    assert!(match_route_pattern("GET /users/{id}", "/users/42", "POST").is_none());
    assert!(match_route_pattern("GET /users/{id}", "/users/42", "PUT").is_none());
    assert!(match_route_pattern("GET /users/{id}", "/users/42", "DELETE").is_none());
    assert!(match_route_pattern("GET /users/{id}", "/users/42", "get").is_none());
}

#[test]
fn each_known_method_is_stripped_from_the_key() {
    assert!(match_route_pattern("POST /data", "/data", "POST").is_some());
    assert!(match_route_pattern("PUT /data", "/data", "PUT").is_some());
    assert!(match_route_pattern("DELETE /data", "/data", "DELETE").is_some());
    assert!(match_route_pattern("POST /data", "/data", "PUT").is_none());
    assert!(match_route_pattern("PUT /data", "/data", "POST").is_none());
    assert!(match_route_pattern("DELETE /data", "/data", "GET").is_none());
}

#[test]
fn other_method_in_front_is_part_of_the_pattern() {
    assert!(match_route_pattern("PATCH /data", "/data", "PATCH").is_none());
    assert!(match_route_pattern("PATCH /data", "PATCH /data", "GET").is_some());
    assert!(match_route_pattern("GET/data", "GET/data", "POST").is_some());
    assert!(match_route_pattern("GET/data", "/data", "GET").is_none());
}

#[test]
fn key_without_method_matches_every_method() {
    assert!(match_route_pattern("/users/{id}", "/users/42", "GET").is_some());
    assert!(match_route_pattern("/users/{id}", "/users/42", "POST").is_some());
    assert!(match_route_pattern("/users/{id}", "/users/42", "BREW").is_some());
    assert!(match_route_pattern("/users/{id}", "/users/42", "").is_some());
}

#[test]
fn key_that_is_only_a_method_and_a_space() {
    assert!(match_route_pattern("GET ", "", "GET").is_some());
    assert!(match_route_pattern("GET ", "/", "GET").is_none());
    assert!(match_route_pattern("DELETE ", "", "GET").is_none());
}

#[test]
fn catch_all_binds_the_rest_of_the_path() {
    let params = match_route_pattern("/*", "/anything/at/all", "GET");
    assert_eq!(bound(&params, "*"), Some("anything/at/all".to_string()));
    let params = match_route_pattern("/static/*", "/static/css/site.css", "GET");
    assert_eq!(bound(&params, "*"), Some("css/site.css".to_string()));
    let params = match_route_pattern("GET /*", "/missing", "GET");
    assert_eq!(bound(&params, "*"), Some("missing".to_string()));
}

#[test]
fn catch_all_accepts_an_empty_rest() {
    let params = match_route_pattern("/*", "/", "GET");
    assert_eq!(bound(&params, "*"), Some("".to_string()));
    let params = match_route_pattern("/static/*", "/static/", "GET");
    assert_eq!(bound(&params, "*"), Some("".to_string()));
    let params = match_route_pattern("/static/*", "/static/a/", "GET");
    assert_eq!(bound(&params, "*"), Some("a/".to_string()));
}

#[test]
fn catch_all_needs_the_segments_before_it() {
    assert!(match_route_pattern("/static/*", "/static", "GET").is_none());
    assert!(match_route_pattern("/static/*", "/other/site.css", "GET").is_none());
    assert!(match_route_pattern("/*", "", "GET").is_none());
}

#[test]
fn catch_all_alone_binds_the_whole_path() {
    let params = match_route_pattern("*", "/a/b", "GET");
    assert_eq!(bound(&params, "*"), Some("/a/b".to_string()));
    let params = match_route_pattern("*", "", "GET");
    assert_eq!(bound(&params, "*"), Some("".to_string()));
}

#[test]
fn catch_all_with_parameters() {
    let params = match_route_pattern("/{tenant}/files/*", "/acme/files/2024/q1/report.pdf", "GET");
    assert_eq!(bound(&params, "tenant"), Some("acme".to_string()));
    assert_eq!(bound(&params, "*"), Some("2024/q1/report.pdf".to_string()));
    assert_eq!(params.unwrap().params.len(), 2);
}

#[test]
fn star_is_a_catch_all_only_at_the_end() {
    assert!(match_route_pattern("/*/x", "/a/x", "GET").is_none());
    assert!(match_route_pattern("/*/x", "/*/x", "GET").is_some());
    assert!(match_route_pattern("/a*", "/ab", "GET").is_none());
    assert!(match_route_pattern("/**", "/a/b", "GET").is_none());
}

#[test]
fn catch_all_replaces_a_parameter_named_star() {
    let params = match_route_pattern("/{*}/*", "/one/two/three", "GET");
    assert_eq!(bound(&params, "*"), Some("two/three".to_string()));
    assert_eq!(params.unwrap().params.len(), 1);
}

#[test]
fn extraction_does_not_compare_literals() {
    let params = extract_path_params("/users/{id}", "/people/42");
    assert_eq!(params.get("id"), Some("42"));
    assert_eq!(params.params.len(), 1);
}

#[test]
fn extraction_gives_nothing_for_another_segment_count() {
    let params = extract_path_params("/users/{id}", "/users/42/extra");
    assert_eq!(params.get("id"), None);
    assert_eq!(params.params.len(), 0);
    let params = extract_path_params("/users/{id}", "/users");
    assert_eq!(params.params.len(), 0);
}

#[test]
fn extraction_of_a_path_against_itself() {
    let params = extract_path_params("/users/42", "/users/42");
    assert_eq!(params.params.len(), 0);
    let params = extract_path_params("/users/{id}", "/users/{id}");
    assert_eq!(params.get("id"), Some("{id}"));
    let params = extract_path_params("/files/*", "/files/*");
    assert_eq!(params.get("*"), Some("*"));
}

#[test]
fn extraction_takes_the_key_as_it_is() {
    let params = extract_path_params("GET /users/{id}", "/users/42");
    assert_eq!(params.get("id"), Some("42"));
    let params = extract_path_params("GET /users/{id}", "/42");
    assert_eq!(params.params.len(), 0);
}

#[test]
fn extraction_with_catch_all() {
    let params = extract_path_params("/a/*", "/b/c/d");
    assert_eq!(params.get("*"), Some("c/d"));
    let params = extract_path_params("/a/*", "/b");
    assert_eq!(params.params.len(), 0);
}

#[test]
fn match_binds_what_extraction_picks() {
    let matched = match_route_pattern("/a/{x}/c/{y}", "/a/1/c/2", "GET").unwrap();
    let picked = extract_path_params("/a/{x}/c/{y}", "/a/1/c/2");
    assert_eq!(matched.get("x"), picked.get("x"));
    assert_eq!(matched.get("y"), picked.get("y"));
    assert_eq!(matched.params.len(), picked.params.len());
}

#[test]
fn pattern_of_a_key() {
    assert!(key_pattern_is("GET /hello", "/hello"));
    assert!(key_pattern_is("POST /data", "/data"));
    assert!(key_pattern_is("PUT /data", "/data"));
    assert!(key_pattern_is("DELETE /data", "/data"));
    assert!(key_pattern_is("/data", "/data"));
    assert!(key_pattern_is("GET ", ""));
    assert!(key_pattern_is("", ""));
    assert!(key_pattern_is("PATCH /data", "PATCH /data"));
    assert!(key_pattern_is("GET POST /x", "POST /x"));
    assert!(!key_pattern_is("GET /hello", "GET /hello"));
    assert!(!key_pattern_is("GET /hello", "/hell"));
    assert!(!key_pattern_is("GET /hello", "/hello/"));
    assert!(!key_pattern_is("PATCH /data", "/data"));
    assert!(!key_pattern_is("GET/data", "/data"));
    assert!(!key_pattern_is("get /data", "/data"));
    assert!(!key_pattern_is("/users/{id}", "/users/4"));
}
