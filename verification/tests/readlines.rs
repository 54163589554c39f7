use body_consume::errors::{ContentTypeError, ReadlinesError};
use body_consume::lines::{LinePoll, Readlines};
use body_consume::message::HttpMessage;
use body_consume::payload::Payload;

fn with_payload(req: &mut HttpMessage, body: &[u8]) {
    let mut p = Payload::new();
    p.feed_data(body.to_vec());
    p.feed_eof();
    req.set_payload(p);
}

#[test]
fn test_readlines() {
    let mut req = HttpMessage::new();
    with_payload(
        &mut req,
        b"Lorem Ipsum is simply dummy text of the printing and typesetting\n\
          industry. Lorem Ipsum has been the industry's standard dummy\n\
          Contrary to popular belief, Lorem Ipsum is not simply random text.",
    );
    let mut r = Readlines::new(&mut req);
    match r.poll() {
        LinePoll::Line(s) => assert_eq!(
            s,
            "Lorem Ipsum is simply dummy text of the printing and typesetting\n"
        ),
        _ => unreachable!("error"),
    }
    match r.poll() {
        LinePoll::Line(s) => assert_eq!(
            s,
            "industry. Lorem Ipsum has been the industry's standard dummy\n"
        ),
        _ => unreachable!("error"),
    }
    match r.poll() {
        LinePoll::Line(s) => assert_eq!(
            s,
            "Contrary to popular belief, Lorem Ipsum is not simply random text."
        ),
        _ => unreachable!("error"),
    }
}

#[test]
fn lines_concatenate_back_to_the_body() {
    let input: &[u8] = b"first\nsecond\nthird, unterminated";
    let mut req = HttpMessage::new();
    with_payload(&mut req, input);
    let mut r = req.readlines();
    let mut collected: Vec<u8> = Vec::new();
    loop {
        match r.poll() {
            LinePoll::Line(s) => collected.extend_from_slice(s.as_bytes()),
            LinePoll::Pending => (),
            LinePoll::Finished => break,
            LinePoll::Failed(e) => unreachable!("failed: {:?}", e),
        }
    }
    assert_eq!(collected, input.to_vec());
}

#[test]
fn lines_limit_overflow_in_chunk() {
    let mut req = HttpMessage::new();
    with_payload(&mut req, b"abcdef\nxyz\n");
    let mut r = req.readlines().limit(3);
    assert_eq!(r.poll(), LinePoll::Failed(ReadlinesError::LimitOverflow));
}

#[test]
fn lines_limit_overflow_in_residual() {
    let mut req = HttpMessage::new();
    with_payload(&mut req, b"ab\ncdefgh\n");
    let mut r = req.readlines().limit(4);
    assert_eq!(r.poll(), LinePoll::Line("ab\n".to_string()));
    assert_eq!(r.poll(), LinePoll::Failed(ReadlinesError::LimitOverflow));
}

#[test]
fn lines_limit_counts_within_the_scanned_segment_only() {
    // A line spanning two chunks is checked against each segment alone, and
    // a chunk that brings a newline is yielded ahead of the residual.
    let mut req = HttpMessage::new();
    let mut p = Payload::new();
    p.feed_data(b"abcdef".to_vec());
    p.feed_data(b"x\n".to_vec());
    p.feed_eof();
    req.set_payload(p);
    let mut r = req.readlines().limit(4);
    assert_eq!(r.poll(), LinePoll::Pending);
    assert_eq!(r.poll(), LinePoll::Line("x\n".to_string()));
    assert_eq!(r.poll(), LinePoll::Failed(ReadlinesError::LimitOverflow));
}

#[test]
fn lines_encoding_error_on_invalid_utf8() {
    let mut req = HttpMessage::new();
    with_payload(&mut req, b"ok\n\xff\xfe\n");
    let mut r = req.readlines();
    assert_eq!(r.poll(), LinePoll::Line("ok\n".to_string()));
    assert_eq!(r.poll(), LinePoll::Failed(ReadlinesError::EncodingError));
}

#[test]
fn lines_decode_with_declared_charset() {
    // 0xB1 is LATIN SMALL LETTER A WITH OGONEK in ISO-8859-2.
    let mut req = HttpMessage::new();
    assert!(req.insert_header("content-type", b"text/plain; charset=ISO-8859-2".to_vec()));
    with_payload(&mut req, b"\xb1b\nrest");
    let mut r = req.readlines();
    assert_eq!(r.poll(), LinePoll::Line("\u{105}b\n".to_string()));
    assert_eq!(r.poll(), LinePoll::Line("rest".to_string()));
    assert_eq!(r.poll(), LinePoll::Finished);
}

#[test]
fn lines_poisoned_by_charset_failure() {
    let mut req = HttpMessage::new();
    assert!(req.insert_header("content-type", b"text/plain; charset=nosuch".to_vec()));
    with_payload(&mut req, b"irrelevant\n");
    let mut r = req.readlines();
    assert_eq!(
        r.poll(),
        LinePoll::Failed(ReadlinesError::ContentType(ContentTypeError::UnknownEncoding))
    );
}

#[test]
fn lines_source_error_is_terminal() {
    let mut req = HttpMessage::new();
    let mut p = Payload::new();
    p.feed_error();
    req.set_payload(p);
    let mut r = req.readlines();
    assert_eq!(r.poll(), LinePoll::Failed(ReadlinesError::SourceError));
}

#[test]
fn lines_empty_body_finishes_at_once() {
    let mut req = HttpMessage::new();
    let mut p = Payload::new();
    p.feed_eof();
    req.set_payload(p);
    let mut r = req.readlines();
    assert_eq!(r.poll(), LinePoll::Finished);
}
