use body_consume::errors::CookieParseError;
use body_consume::message::HttpMessage;

#[test]
fn cookies_from_several_headers_in_order() {
    let mut req = HttpMessage::new();
    assert!(req.insert_header("cookie", b"a=1; b=2".to_vec()));
    assert!(req.insert_header("cookie", b" c=3 ".to_vec()));
    let jar = req.cookies().unwrap();
    let pairs: Vec<(&str, &str)> = jar
        .iter()
        .map(|c| (c.name.as_str(), c.value.as_str()))
        .collect();
    assert_eq!(pairs, vec![("a", "1"), ("b", "2"), ("c", "3")]);
}

#[test]
fn cookie_finds_first_exact_name() {
    let mut req = HttpMessage::new();
    assert!(req.insert_header("cookie", b"a=1; b=2; a=3".to_vec()));
    let c = req.cookie("a").unwrap();
    assert_eq!(c.name, "a");
    assert_eq!(c.value, "1");
    assert!(req.cookie("A").is_none());
    assert!(req.cookie("missing").is_none());
}

#[test]
fn cookies_decode_percent_escapes() {
    let mut req = HttpMessage::new();
    assert!(req.insert_header("cookie", b"n=%20x".to_vec()));
    let jar = req.cookies().unwrap();
    assert_eq!(jar.len(), 1);
    assert_eq!(jar[0].value, " x");
}

#[test]
fn cookies_skip_blank_segments() {
    let mut req = HttpMessage::new();
    assert!(req.insert_header("cookie", b"; a=1;; b=2; ".to_vec()));
    let jar = req.cookies().unwrap();
    assert_eq!(jar.len(), 2);
}

#[test]
fn cookies_invalid_utf8_fails() {
    let mut req = HttpMessage::new();
    assert!(req.insert_header("cookie", b"a=1; b=\xff\xfe".to_vec()));
    assert_eq!(req.cookies().err(), Some(CookieParseError::InvalidEncoding));
}

#[test]
fn cookies_malformed_segment_fails() {
    let mut req = HttpMessage::new();
    assert!(req.insert_header("cookie", b"a=1; nopair".to_vec()));
    assert_eq!(req.cookies().err(), Some(CookieParseError::MalformedCookie));
}

#[test]
fn cookies_cached_jar_survives_header_changes() {
    let mut req = HttpMessage::new();
    assert!(req.insert_header("cookie", b"a=1".to_vec()));
    let first = req.cookies().unwrap();
    assert_eq!(first.len(), 1);
    // The jar was derived once; a header added afterwards changes nothing.
    assert!(req.insert_header("cookie", b"b=2".to_vec()));
    let second = req.cookies().unwrap();
    assert_eq!(second.len(), 1);
    assert_eq!(second[0].name, "a");
}

#[test]
fn cookies_absent_header_gives_empty_jar() {
    let mut req = HttpMessage::new();
    assert!(req.cookies().unwrap().is_empty());
}
