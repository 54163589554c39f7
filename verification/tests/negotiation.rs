use body_consume::errors::ContentTypeError;
use body_consume::message::HttpMessage;
use encoding::all::{ISO_8859_2, UTF_8};
use encoding::Encoding;

#[test]
fn test_content_type() {
    let mut req = HttpMessage::new();
    assert!(req.insert_header("content-type", b"text/plain".to_vec()));
    assert_eq!(req.content_type(), "text/plain");
    let mut req = HttpMessage::new();
    assert!(req.insert_header("content-type", b"application/json; charset=utf=8".to_vec()));
    assert_eq!(req.content_type(), "application/json");
    let req = HttpMessage::new();
    assert_eq!(req.content_type(), "");
}

#[test]
fn test_mime_type() {
    let mut req = HttpMessage::new();
    assert!(req.insert_header("content-type", b"application/json".to_vec()));
    let mt = req.mime_type().unwrap().unwrap();
    assert_eq!(mt.type_(), "application");
    assert_eq!(mt.subtype(), "json");
    assert_eq!(mt.get_param("charset"), None);

    let req = HttpMessage::new();
    assert!(req.mime_type().unwrap().is_none());

    let mut req = HttpMessage::new();
    assert!(req.insert_header("content-type", b"application/json; charset=utf-8".to_vec()));
    let mt = req.mime_type().unwrap().unwrap();
    assert_eq!(mt.get_param("charset"), Some("utf-8"));
    assert_eq!(mt.type_(), "application");
    assert_eq!(mt.subtype(), "json");
}

#[test]
fn test_mime_type_error() {
    let mut req = HttpMessage::new();
    assert!(req.insert_header(
        "content-type",
        b"applicationadfadsfasdflknadsfklnadsfjson".to_vec()
    ));
    assert_eq!(Err(ContentTypeError::ParseError), req.mime_type().map(|_| ()));
}

#[test]
fn test_encoding() {
    let req = HttpMessage::new();
    assert_eq!(UTF_8.name(), req.encoding().unwrap().name());

    let mut req = HttpMessage::new();
    assert!(req.insert_header("content-type", b"application/json".to_vec()));
    assert_eq!(UTF_8.name(), req.encoding().unwrap().name());

    let mut req = HttpMessage::new();
    assert!(req.insert_header(
        "content-type",
        b"application/json; charset=ISO-8859-2".to_vec()
    ));
    assert_eq!(ISO_8859_2.name(), req.encoding().unwrap().name());
}

#[test]
fn test_encoding_error() {
    let mut req = HttpMessage::new();
    assert!(req.insert_header("content-type", b"applicatjson".to_vec()));
    assert_eq!(Some(ContentTypeError::ParseError), req.encoding().err());

    let mut req = HttpMessage::new();
    assert!(req.insert_header(
        "content-type",
        b"application/json; charset=kkkttktk".to_vec()
    ));
    assert_eq!(Some(ContentTypeError::UnknownEncoding), req.encoding().err());
}

#[test]
fn test_chunked() {
    let req = HttpMessage::new();
    assert!(!req.chunked().unwrap());

    let mut req = HttpMessage::new();
    assert!(req.insert_header("transfer-encoding", b"chunked".to_vec()));
    assert!(req.chunked().unwrap());

    let mut req = HttpMessage::new();
    assert!(req.insert_header(
        "transfer-encoding",
        b"some va\xadscc\xacas0xsdasdlue".to_vec()
    ));
    assert!(req.chunked().is_err());
}

#[test]
fn chunked_is_case_insensitive_and_token_in_list() {
    let mut req = HttpMessage::new();
    assert!(req.insert_header("transfer-encoding", b"gzip, CHUNKED".to_vec()));
    assert!(req.chunked().unwrap());

    let mut req = HttpMessage::new();
    assert!(req.insert_header("transfer-encoding", b"gzip".to_vec()));
    assert!(!req.chunked().unwrap());
}

#[test]
fn content_type_not_text_reads_empty() {
    let mut req = HttpMessage::new();
    assert!(req.insert_header("content-type", b"text/pl\x80ain".to_vec()));
    assert_eq!(req.content_type(), "");
    assert_eq!(Some(ContentTypeError::ParseError), req.mime_type().err());
}

#[test]
fn content_type_trims_and_splits() {
    let mut req = HttpMessage::new();
    assert!(req.insert_header("content-type", b"  text/html ; charset=utf-8".to_vec()));
    assert_eq!(req.content_type(), "text/html");
}

#[test]
fn content_type_is_lower_cased() {
    let mut req = HttpMessage::new();
    assert!(req.insert_header("content-type", b"TEXT/Plain; Charset=UTF-8".to_vec()));
    assert_eq!(req.content_type(), "text/plain");
}

#[test]
fn header_names_are_case_insensitive() {
    let mut req = HttpMessage::new();
    assert!(req.insert_header("Content-Type", b"text/plain".to_vec()));
    assert_eq!(req.content_type(), "text/plain");
    assert!(!req.insert_header("bad name", b"x".to_vec()));
}

#[test]
fn encoding_resolves_label_case_insensitively() {
    let mut req = HttpMessage::new();
    assert!(req.insert_header(
        "content-type",
        b"text/plain; charset=UTF-8".to_vec()
    ));
    let cs = req.encoding().unwrap();
    assert!(cs.is_utf8());
    assert_eq!(cs.name(), "utf-8");
}
