use body_consume::body::BodyPoll;
use body_consume::errors::PayloadError;
use body_consume::message::HttpMessage;
use body_consume::payload::Payload;

fn with_payload(req: &mut HttpMessage, chunks: &[&[u8]]) {
    let mut p = Payload::new();
    for c in chunks {
        p.feed_data(c.to_vec());
    }
    p.feed_eof();
    req.set_payload(p);
}

#[test]
fn test_message_body() {
    let mut req = HttpMessage::new();
    assert!(req.insert_header("content-length", b"xxxx".to_vec()));
    match req.body().poll() {
        BodyPoll::Failed(PayloadError::UnknownLength) => (),
        _ => unreachable!("error"),
    }

    let mut req = HttpMessage::new();
    assert!(req.insert_header("content-length", b"1000000".to_vec()));
    match req.body().poll() {
        BodyPoll::Failed(PayloadError::Overflow) => (),
        _ => unreachable!("error"),
    }

    let mut req = HttpMessage::new();
    with_payload(&mut req, &[b"test"]);
    match req.body().poll() {
        BodyPoll::Ready(bytes) => assert_eq!(bytes, b"test".to_vec()),
        _ => unreachable!("error"),
    }

    let mut req = HttpMessage::new();
    with_payload(&mut req, &[b"11111111111111"]);
    let mut body = req.body().limit(5);
    match body.poll() {
        BodyPoll::Failed(PayloadError::Overflow) => (),
        _ => unreachable!("error"),
    }
}

#[test]
fn body_concatenates_chunks_in_order() {
    let mut req = HttpMessage::new();
    with_payload(&mut req, &[b"he", b"llo ", b"world"]);
    assert_eq!(req.body().poll(), BodyPoll::Ready(b"hello world".to_vec()));
}

#[test]
fn body_resumes_after_not_ready() {
    let mut req = HttpMessage::new();
    let mut p = Payload::new();
    p.feed_data(b"par".to_vec());
    req.set_payload(p);
    let mut body = req.body();
    assert_eq!(body.poll(), BodyPoll::Pending);
    // More data arrives through the collector's own source on later polls:
    // nothing was lost while the source was dry.
    assert_eq!(body.poll(), BodyPoll::Pending);
}

#[test]
fn body_collects_incrementally_fed_chunks() {
    let mut req = HttpMessage::new();
    req.set_payload(Payload::new());
    let mut body = req.body();
    assert_eq!(body.poll(), BodyPoll::Pending);
    body.feed_data(b"ab".to_vec());
    assert_eq!(body.poll(), BodyPoll::Pending);
    body.feed_data(b"cd".to_vec());
    body.feed_eof();
    assert_eq!(body.poll(), BodyPoll::Ready(b"abcd".to_vec()));
}

#[test]
fn body_source_error_is_terminal() {
    let mut req = HttpMessage::new();
    let mut p = Payload::new();
    p.feed_data(b"abc".to_vec());
    p.feed_error();
    req.set_payload(p);
    assert_eq!(req.body().poll(), BodyPoll::Failed(PayloadError::SourceError));
}

#[test]
fn body_actual_bytes_checked_against_limit_despite_declaration() {
    // The declaration lies small; the cap still holds on real bytes.
    let mut req = HttpMessage::new();
    assert!(req.insert_header("content-length", b"3".to_vec()));
    with_payload(&mut req, &[b"0123456789"]);
    let mut body = req.body().limit(8);
    assert_eq!(body.poll(), BodyPoll::Failed(PayloadError::Overflow));
}

#[test]
fn body_accepts_plus_prefixed_length() {
    let mut req = HttpMessage::new();
    assert!(req.insert_header("content-length", b"+4".to_vec()));
    with_payload(&mut req, &[b"test"]);
    assert_eq!(req.body().poll(), BodyPoll::Ready(b"test".to_vec()));
}

#[test]
fn body_empty_source_yields_empty_body() {
    let mut req = HttpMessage::new();
    assert_eq!(req.body().poll(), BodyPoll::Ready(Vec::new()));
}
