use body_consume::errors::UrlencodedError;
use body_consume::form::FormPoll;
use body_consume::message::HttpMessage;
use body_consume::payload::Payload;

fn with_payload(req: &mut HttpMessage, body: &[u8]) {
    let mut p = Payload::new();
    p.feed_data(body.to_vec());
    p.feed_eof();
    req.set_payload(p);
}

#[test]
fn test_urlencoded_error() {
    let mut req = HttpMessage::new();
    assert!(req.insert_header("content-type", b"application/x-www-form-urlencoded".to_vec()));
    assert!(req.insert_header("content-length", b"xxxx".to_vec()));
    assert_eq!(
        req.urlencoded().poll(),
        FormPoll::Failed(UrlencodedError::UnknownLength)
    );

    let mut req = HttpMessage::new();
    assert!(req.insert_header("content-type", b"application/x-www-form-urlencoded".to_vec()));
    assert!(req.insert_header("content-length", b"1000000".to_vec()));
    assert_eq!(
        req.urlencoded().poll(),
        FormPoll::Failed(UrlencodedError::Overflow)
    );

    let mut req = HttpMessage::new();
    assert!(req.insert_header("content-type", b"text/plain".to_vec()));
    assert!(req.insert_header("content-length", b"10".to_vec()));
    assert_eq!(
        req.urlencoded().poll(),
        FormPoll::Failed(UrlencodedError::ContentType)
    );
}

#[test]
fn test_urlencoded() {
    let mut req = HttpMessage::new();
    assert!(req.insert_header("content-type", b"application/x-www-form-urlencoded".to_vec()));
    assert!(req.insert_header("content-length", b"11".to_vec()));
    with_payload(&mut req, b"hello=world");
    assert_eq!(
        req.urlencoded().poll(),
        FormPoll::Ready(vec![("hello".to_string(), "world".to_string())])
    );

    let mut req = HttpMessage::new();
    assert!(req.insert_header(
        "content-type",
        b"application/x-www-form-urlencoded; charset=utf-8".to_vec()
    ));
    assert!(req.insert_header("content-length", b"11".to_vec()));
    with_payload(&mut req, b"hello=world");
    assert_eq!(
        req.urlencoded().poll(),
        FormPoll::Ready(vec![("hello".to_string(), "world".to_string())])
    );
}

#[test]
fn form_percent_decoding_and_order() {
    let mut req = HttpMessage::new();
    assert!(req.insert_header("content-type", b"application/x-www-form-urlencoded".to_vec()));
    with_payload(&mut req, b"a=%41&b=x+y&a=2");
    assert_eq!(
        req.urlencoded().poll(),
        FormPoll::Ready(vec![
            ("a".to_string(), "A".to_string()),
            ("b".to_string(), "x y".to_string()),
            ("a".to_string(), "2".to_string()),
        ])
    );
}

#[test]
fn form_gate_is_case_insensitive() {
    let mut req = HttpMessage::new();
    assert!(req.insert_header("content-type", b"Application/X-WWW-Form-Urlencoded".to_vec()));
    with_payload(&mut req, b"k=v");
    assert_eq!(
        req.urlencoded().poll(),
        FormPoll::Ready(vec![("k".to_string(), "v".to_string())])
    );
}

#[test]
fn form_unknown_charset_is_content_type_error() {
    let mut req = HttpMessage::new();
    assert!(req.insert_header(
        "content-type",
        b"application/x-www-form-urlencoded; charset=kkkttktk".to_vec()
    ));
    assert_eq!(
        req.urlencoded().poll(),
        FormPoll::Failed(UrlencodedError::ContentType)
    );
}

#[test]
fn form_latin2_body_is_decoded_before_parsing() {
    // 0xB1 is LATIN SMALL LETTER A WITH OGONEK in ISO-8859-2.
    let mut req = HttpMessage::new();
    assert!(req.insert_header(
        "content-type",
        b"application/x-www-form-urlencoded; charset=ISO-8859-2".to_vec()
    ));
    with_payload(&mut req, b"k=\xb1");
    assert_eq!(
        req.urlencoded().poll(),
        FormPoll::Ready(vec![("k".to_string(), "\u{105}".to_string())])
    );
}

#[test]
fn form_invalid_utf8_body_is_parse_error() {
    let mut req = HttpMessage::new();
    assert!(req.insert_header("content-type", b"application/x-www-form-urlencoded".to_vec()));
    with_payload(&mut req, b"k=\xff\xfe");
    assert_eq!(req.urlencoded().poll(), FormPoll::Failed(UrlencodedError::Parse));
}

#[test]
fn form_undecodable_byte_is_parse_error() {
    // 0xA5 is unassigned in ISO-8859-3, so strict decoding traps on it.
    let mut req = HttpMessage::new();
    assert!(req.insert_header(
        "content-type",
        b"application/x-www-form-urlencoded; charset=ISO-8859-3".to_vec()
    ));
    with_payload(&mut req, b"k=\xa5");
    assert_eq!(req.urlencoded().poll(), FormPoll::Failed(UrlencodedError::Parse));
}

#[test]
fn form_overflow_on_actual_bytes() {
    let mut req = HttpMessage::new();
    assert!(req.insert_header("content-type", b"application/x-www-form-urlencoded".to_vec()));
    with_payload(&mut req, b"hello=world");
    let mut form = req.urlencoded().limit(5);
    assert_eq!(form.poll(), FormPoll::Failed(UrlencodedError::Overflow));
}
