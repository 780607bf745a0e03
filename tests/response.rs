use restson::response::{classify_response, collect_body, decoded, finish_request};
use restson::Error;

#[test]
fn success_class_gives_body() {
    assert_eq!(classify_response(200, String::from("ok")), Ok(String::from("ok")));
    assert_eq!(classify_response(299, String::from("x")), Ok(String::from("x")));
}

#[test]
fn created_with_empty_body_succeeds() {
    assert_eq!(classify_response(201, String::new()), Ok(String::new()));
}

#[test]
fn not_found_is_http_error_with_body() {
    assert_eq!(
        classify_response(404, String::from("not found")),
        Err(Error::HttpError(404, String::from("not found")))
    );
}

#[test]
fn statuses_outside_success_class_fail() {
    assert_eq!(classify_response(199, String::new()), Err(Error::HttpError(199, String::new())));
    assert_eq!(classify_response(300, String::from("m")), Err(Error::HttpError(300, String::from("m"))));
    assert_eq!(classify_response(500, String::from("e")), Err(Error::HttpError(500, String::from("e"))));
}

#[test]
fn transport_failure_is_request_error() {
    assert_eq!(finish_request(None), Err(Error::RequestError));
}

#[test]
fn chunks_are_joined_in_order() {
    let chunks = vec![b"not ".to_vec(), b"found".to_vec()];
    assert_eq!(finish_request(Some((404, chunks))), Err(Error::HttpError(404, String::from("not found"))));
    let chunks = vec![b"{\"a\":".to_vec(), b"1}".to_vec()];
    assert_eq!(finish_request(Some((200, chunks))), Ok(String::from("{\"a\":1}")));
}

#[test]
fn invalid_utf8_is_replaced() {
    let chunks = vec![vec![b'a', 0xff, b'b']];
    assert_eq!(collect_body(&chunks), "a\u{FFFD}b");
}

#[test]
fn no_chunks_give_empty_body() {
    assert_eq!(collect_body(&Vec::new()), "");
}

#[test]
fn decoding_failure_is_parse_error() {
    assert_eq!(decoded::<u8>(Err(())), Err(Error::ParseError));
    assert_eq!(decoded::<u8>(Ok(3)), Ok(3));
}

#[test]
fn get_body_decodes_into_value() {
    let body = finish_request(Some((200, vec![b"{\"method\":\"GET\",\"url\":\"http://example/anything\"}".to_vec()]))).unwrap();
    let v: serde_json::Value = serde_json::from_str(&body).unwrap();
    assert_eq!(v["method"], serde_json::Value::String(String::from("GET")));
    assert_eq!(v["url"], serde_json::Value::String(String::from("http://example/anything")));
}

#[test]
fn echoed_body_decodes_to_posted_value() {
    let mut m = serde_json::Map::new();
    m.insert(String::from("x"), serde_json::Value::from(1));
    let posted = serde_json::Value::Object(m);
    let text = serde_json::to_string(&posted).unwrap();
    let body = finish_request(Some((200, vec![text.into_bytes()]))).unwrap();
    let back: serde_json::Value = decoded(serde_json::from_str(&body).map_err(|_| ())).unwrap();
    assert_eq!(back, posted);
}

#[test]
fn json_encoding_round_trips() {
    let mut m = serde_json::Map::new();
    m.insert(String::from("name"), serde_json::Value::from("a b"));
    m.insert(String::from("n"), serde_json::Value::from(-7));
    m.insert(String::from("list"), serde_json::Value::Array(vec![serde_json::Value::Bool(true), serde_json::Value::Null]));
    let v = serde_json::Value::Object(m);
    let back: serde_json::Value = serde_json::from_str(&serde_json::to_string(&v).unwrap()).unwrap();
    assert_eq!(back, v);
}
