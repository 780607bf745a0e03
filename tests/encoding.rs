use restson::encoding::{encode_component, make_query};

#[test]
fn component_keeps_unreserved_bytes() {
    assert_eq!(encode_component("Az09*-._"), "Az09*-._");
}

#[test]
fn component_escapes_space_as_percent_twenty() {
    assert_eq!(encode_component("2 c"), "2%20c");
}

#[test]
fn component_escapes_separators() {
    assert_eq!(encode_component("a&b=c+d"), "a%26b%3Dc%2Bd");
}

#[test]
fn component_escapes_utf8_bytes() {
    assert_eq!(encode_component("é/"), "%C3%A9%2F");
}

#[test]
fn query_keeps_pair_order() {
    assert_eq!(make_query(&[("a", "1"), ("b", "2 c")]), "a=1&b=2%20c");
    assert_eq!(make_query(&[("b", "2 c"), ("a", "1")]), "b=2%20c&a=1");
}

#[test]
fn query_keeps_duplicate_keys() {
    assert_eq!(make_query(&[("k", "1"), ("k", "2")]), "k=1&k=2");
}

#[test]
fn empty_query_is_empty_text() {
    assert_eq!(make_query(&[]), "");
}

#[test]
fn query_pieces_decode_to_the_pairs() {
    let pairs = [("x y", "a&b"), ("=", "é")];
    let text = make_query(&pairs);
    let pieces: Vec<&str> = text.split('&').collect();
    assert_eq!(pieces.len(), 2);
    for (piece, (k, v)) in pieces.iter().zip(pairs.iter()) {
        let mut kv = piece.splitn(2, '=');
        let ek = kv.next().unwrap();
        let ev = kv.next().unwrap();
        let dk = url::percent_encoding::percent_decode(ek.as_bytes()).decode_utf8().unwrap();
        let dv = url::percent_encoding::percent_decode(ev.as_bytes()).decode_utf8().unwrap();
        assert_eq!(&dk, k);
        assert_eq!(&dv, v);
    }
}
