use rust_flask::body_text;
use rust_flask::json_response;
use rust_flask::text_response;
use rust_flask::Json;
use rust_flask::JsonError;
use rust_flask::Request;
use rust_flask::Response;

#[test]
fn test_text_response() {
    let response = text_response("Hello, World!");
    assert_eq!(response.header_named("Content-Type"), Some("text/plain; charset=utf-8"));
}

#[test]
fn test_json_response() {
    let data = vec!["hello", "world"];
    let response = json_response(&serde_json::to_string(&data).unwrap());
    assert_eq!(response.header_named("Content-Type"), Some("application/json; charset=utf-8"));
}

#[test]
fn text_response_in_full() {
    let response = text_response("Hello, World!");
    assert_eq!(response.status, 200);
    assert_eq!(
        response.headers,
        vec![("Content-Type".to_string(), "text/plain; charset=utf-8".to_string())]
    );
    assert_eq!(response.body, b"Hello, World!".to_vec());
}

#[test]
fn text_response_encodes_in_utf8() {
    let response = text_response("h\u{e9} \u{1f980}");
    assert_eq!(response.body, vec![b'h', 0xc3, 0xa9, b' ', 0xf0, 0x9f, 0xa6, 0x80]);
    assert_eq!(text_response("").body, Vec::<u8>::new());
}

#[test]
fn json_response_in_full() {
    let data = vec!["hello", "world"];
    let response = json_response(&serde_json::to_string(&data).unwrap());
    assert_eq!(response.status, 200);
    assert_eq!(
        response.headers,
        vec![("Content-Type".to_string(), "application/json; charset=utf-8".to_string())]
    );
    assert_eq!(response.body, b"[\"hello\",\"world\"]".to_vec());
}

#[test]
fn plain_responses() {
    let response = Response::new(201, "made");
    assert_eq!(response.status, 201);
    assert!(response.headers.is_empty());
    assert_eq!(response.body, b"made".to_vec());
    let response = Response::not_found();
    assert_eq!(response.status, 404);
    assert!(response.headers.is_empty());
    assert_eq!(response.body, b"Not Found".to_vec());
    let response = Response::method_not_allowed();
    assert_eq!(response.status, 405);
    assert!(response.headers.is_empty());
    assert_eq!(response.body, b"Method not allowed".to_vec());
}

#[test]
fn headers_are_kept_in_order_and_found_by_name() {
    let response = Response::new(200, "").header("A", "1").header("B", "2").header("A", "3");
    assert_eq!(
        response.headers,
        vec![
            ("A".to_string(), "1".to_string()),
            ("B".to_string(), "2".to_string()),
            ("A".to_string(), "3".to_string()),
        ]
    );
    assert_eq!(response.header_named("A"), Some("1"));
    assert_eq!(response.header_named("B"), Some("2"));
    assert_eq!(response.header_named("C"), None);
    assert_eq!(response.header_named("a"), None);
    assert_eq!(response.header_named(""), None);
}

#[test]
fn new_request() {
    let req = Request::new("PUT", "/things/1");
    assert_eq!(req.method, "PUT");
    assert_eq!(req.path, "/things/1");
    assert!(req.headers.is_empty());
    assert!(req.body.is_empty());
}

#[test]
fn json_error_messages() {
    assert_eq!(JsonError::new("boom").message(), "boom");
    assert_eq!(JsonError::new("boom").to_string(), "JSON Error: boom");
    assert_eq!(JsonError::new("").to_string(), "JSON Error: ");
    assert_eq!(JsonError::unreadable().message(), "Failed to read body");
    assert_eq!(
        JsonError::malformed("expected value at line 1 column 1").message(),
        "Failed to parse JSON: expected value at line 1 column 1"
    );
    assert_eq!(JsonError::malformed("").message(), "Failed to parse JSON: ");
}

#[test]
fn body_text_of_valid_utf8() {
    assert_eq!(body_text(b"{\"a\": 1}").unwrap(), "{\"a\": 1}");
    assert_eq!(body_text(b"").unwrap(), "");
    assert_eq!(body_text(&[b'h', 0xc3, 0xa9]).unwrap(), "h\u{e9}");
    assert_eq!(body_text("\u{1f980}".as_bytes()).unwrap().as_bytes(), "\u{1f980}".as_bytes());
}

#[test]
fn body_text_of_invalid_utf8() {
    assert_eq!(body_text(&[0xff]).unwrap_err().message(), "Body is not valid UTF-8");
    assert_eq!(body_text(&[b'a', 0xc3]).unwrap_err().message(), "Body is not valid UTF-8");
    assert_eq!(body_text(&[0xed, 0xa0, 0x80]).unwrap_err().message(), "Body is not valid UTF-8");
    assert_eq!(body_text(&[0xc0, 0x80]).unwrap_err().to_string(), "JSON Error: Body is not valid UTF-8");
}

#[test]
fn json_body_through_a_parser() {
    let text = body_text(b"[\"hello\",\"world\"]").unwrap();
    let parsed: Result<Vec<String>, serde_json::Error> = serde_json::from_str(text);
    let Json(words) = Json(parsed.unwrap());
    assert_eq!(words, vec!["hello".to_string(), "world".to_string()]);

    let text = body_text(b"not json").unwrap();
    let parsed: Result<Vec<String>, serde_json::Error> = serde_json::from_str(text);
    let error = JsonError::malformed(&parsed.unwrap_err().to_string());
    assert!(error.message().starts_with("Failed to parse JSON: "));
    assert!(error.message().len() > "Failed to parse JSON: ".len());
}
