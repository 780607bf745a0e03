use restson::{Error, Method, RestClient, RestPath};

struct HttpBinAnything;

impl RestPath<()> for HttpBinAnything {
    fn get_path(_: ()) -> Result<String, Error> {
        Ok(String::from("anything"))
    }
}

struct Device;

impl RestPath<u32> for Device {
    fn get_path(id: u32) -> Result<String, Error> {
        if id == 0 {
            Err(Error::ParseError)
        } else {
            Ok(format!("api/devices/{}", id))
        }
    }
}

#[test]
fn new_rejects_malformed_url() {
    assert_eq!(RestClient::new("not a url").err(), Some(Error::UrlError));
}

#[test]
fn uri_has_base_origin_and_path() {
    let c = RestClient::new("http://example").unwrap();
    assert_eq!(c.make_uri("anything", None).unwrap(), "http://example/anything");
}

#[test]
fn uri_path_replaces_base_path() {
    let c = RestClient::new("https://user@example.com:8080/base/dir").unwrap();
    assert_eq!(c.make_uri("/api/x", None).unwrap(), "https://user@example.com:8080/api/x");
}

#[test]
fn uri_query_in_caller_order() {
    let c = RestClient::new("http://example").unwrap();
    let q = [("a", "1"), ("b", "2 c")];
    assert_eq!(c.make_uri("anything", Some(&q)).unwrap(), "http://example/anything?a=1&b=2%20c");
}

#[test]
fn uri_query_follows_base_query() {
    let c = RestClient::new("http://example/?k=v").unwrap();
    let q = [("a", "1")];
    assert_eq!(c.make_uri("p", Some(&q)).unwrap(), "http://example/p?k=v&a=1");
    assert_eq!(c.make_uri("p", None).unwrap(), "http://example/p?k=v");
}

#[test]
fn uri_empty_query_adds_nothing() {
    let c = RestClient::new("http://example").unwrap();
    let q: [(&str, &str); 0] = [];
    assert_eq!(c.make_uri("p", Some(&q)).unwrap(), "http://example/p");
}

#[test]
fn get_request_has_no_body() {
    let mut c = RestClient::new("http://example").unwrap();
    let req = c.make_request::<(), HttpBinAnything>(Method::Get, (), None, None).unwrap();
    assert_eq!(req.method, Method::Get);
    assert_eq!(req.uri, "http://example/anything");
    assert!(req.body.is_none());
    assert!(req.content_length.is_none());
    assert!(req.content_type.is_none());
    assert!(req.auth.is_none());
    assert!(req.headers.is_empty());
}

#[test]
fn path_from_parameter() {
    let mut c = RestClient::new("http://example").unwrap();
    let req = c.make_request::<u32, Device>(Method::Delete, 1234, None, None).unwrap();
    assert_eq!(req.method, Method::Delete);
    assert_eq!(req.uri, "http://example/api/devices/1234");
}

#[test]
fn path_error_is_returned() {
    let mut c = RestClient::new("http://example").unwrap();
    let r = c.make_request::<u32, Device>(Method::Get, 0, None, None);
    assert_eq!(r.err(), Some(Error::ParseError));
}

#[test]
fn body_carries_json_content_headers() {
    let mut c = RestClient::new("http://example").unwrap();
    let body = String::from("{\"x\":1}");
    let req = c
        .body_request::<(), HttpBinAnything>(Method::Post, (), None, Ok(body.clone()))
        .unwrap();
    assert_eq!(req.method, Method::Post);
    assert_eq!(req.body, Some(body));
    assert_eq!(req.content_length, Some(7));
    assert_eq!(req.content_type, Some(String::from("application/json")));
}

#[test]
fn content_length_counts_bytes() {
    let c = RestClient::new("http://example").unwrap();
    let req = c.build_request(Method::Put, "p", None, Some(String::from("\"é\""))).unwrap();
    assert_eq!(req.content_length, Some(4));
}

#[test]
fn failed_encoding_is_parse_error() {
    let mut c = RestClient::new("http://example").unwrap();
    let r = c.body_request::<(), HttpBinAnything>(Method::Put, (), None, Err(()));
    assert_eq!(r.err(), Some(Error::ParseError));
}

#[test]
fn headers_and_auth_go_with_requests() {
    let mut c = RestClient::new("http://example").unwrap();
    c.set_auth("user", "pass");
    c.set_header_raw("X-Api-Key", "one");
    c.set_header_raw("Accept", "text/plain");
    c.set_header_raw("x-api-key", "two");
    let req = c.build_request(Method::Get, "p", None, None).unwrap();
    assert_eq!(req.auth, Some((String::from("user"), String::from("pass"))));
    assert_eq!(
        req.headers,
        vec![
            (String::from("x-api-key"), String::from("two")),
            (String::from("Accept"), String::from("text/plain")),
        ]
    );
    c.clear_headers();
    let req = c.build_request(Method::Get, "p", None, None).unwrap();
    assert!(req.headers.is_empty());
    assert!(req.auth.is_some());
}

#[test]
fn header_names_compare_without_case() {
    assert!(restson::client::names_match("Content-Type", "content-TYPE"));
    assert!(!restson::client::names_match("Content-Type", "Content-Typ"));
    assert!(!restson::client::names_match("a", "b"));
}

#[test]
fn request_headers_replace_defaults_of_the_same_name() {
    let mut c = RestClient::new("http://example").unwrap();
    c.set_header_raw("authorization", "Bearer x");
    c.set_header_raw("Content-TYPE", "text/plain");
    c.set_header_raw("content-length", "99");
    c.set_header_raw("Accept", "*/*");
    let req = c.build_request(Method::Get, "p", None, None).unwrap();
    assert_eq!(req.headers.len(), 4);
    c.set_auth("u", "p");
    let req = c.build_request(Method::Post, "p", None, Some(String::from("{}"))).unwrap();
    assert_eq!(req.headers, vec![(String::from("Accept"), String::from("*/*"))]);
    assert_eq!(req.content_length, Some(2));
    let req = c.build_request(Method::Get, "p", None, None).unwrap();
    assert_eq!(
        req.headers,
        vec![
            (String::from("Content-TYPE"), String::from("text/plain")),
            (String::from("content-length"), String::from("99")),
            (String::from("Accept"), String::from("*/*")),
        ]
    );
}
