use shiguredo_container::http_decode::{decode_response, BodyLimit, DecodedResponse, ResponseStep};

/// Hands the bytes over in reads of at most `chunk_size`, then the end of
/// the stream, as a socket reader does; `Ok(None)` where the end came
/// before the response was complete without an error.
fn feed_chunked(method: &str, limit: BodyLimit, bytes: &[u8], chunk_size: usize) -> Result<DecodedResponse, String> {
    let mut received: Vec<u8> = Vec::new();
    let mut offset = 0;
    loop {
        let n = (bytes.len() - offset).min(chunk_size);
        received.extend_from_slice(&bytes[offset..offset + n]);
        offset += n;
        match decode_response(method, &received, n == 0, limit) {
            ResponseStep::Complete(r) => return Ok(r),
            ResponseStep::Failed(m) => return Err(m),
            ResponseStep::NeedMore => {
                if n == 0 {
                    return Err("incomplete at the end of the stream".to_string());
                }
            }
        }
    }
}

fn feed_all(limit: BodyLimit, bytes: &[u8]) -> Result<DecodedResponse, String> {
    feed_chunked("GET", limit, bytes, 8192)
}

fn content_length_response(body: &[u8]) -> Vec<u8> {
    let mut raw = format!("HTTP/1.1 200 OK\r\nContent-Length: {}\r\n\r\n", body.len()).into_bytes();
    raw.extend_from_slice(body);
    raw
}

fn close_delimited_response(body: &[u8]) -> Vec<u8> {
    let mut raw = b"HTTP/1.1 200 OK\r\n\r\n".to_vec();
    raw.extend_from_slice(body);
    raw
}

#[test]
fn incomplete_content_length_body_at_eof_is_error() {
    let raw = b"HTTP/1.1 200 OK\r\nContent-Length: 5\r\n\r\nhi";
    let err = feed_all(BodyLimit::Unlimited, raw).expect_err("an unfinished body at the end fails");
    assert!(err.contains("before body complete"), "{err}");
}

#[test]
fn informational_1xx_is_skipped_for_final_response() {
    let raw = b"HTTP/1.1 103 Early Hints\r\n\r\nHTTP/1.1 200 OK\r\nContent-Length: 2\r\n\r\nok";
    let decoded = feed_all(BodyLimit::Unlimited, raw).expect("the final response is read");
    assert_eq!(decoded.status, 200);
    assert_eq!(decoded.body, b"ok");
}

#[test]
fn close_delimited_accepts_eof_as_complete() {
    let raw = b"HTTP/1.0 200 OK\r\n\r\nhello";
    let decoded = feed_all(BodyLimit::Unlimited, raw).expect("the end of the stream completes it");
    assert_eq!(decoded.body, b"hello");
}

#[test]
fn body_limit_error_accepts_exactly_at_limit() {
    let raw = close_delimited_response(b"hello");
    let decoded = feed_all(BodyLimit::Error(5), &raw).expect("exactly at the limit is fine");
    assert_eq!(decoded.body, b"hello");
}

#[test]
fn body_limit_error_rejects_one_over_limit() {
    let raw = close_delimited_response(b"helloo");
    let err = feed_all(BodyLimit::Error(5), &raw).expect_err("one over the limit fails");
    assert!(err.contains("output exceeds 5 bytes limit"), "{err}");
}

#[test]
fn body_limit_error_rejects_over_limit_with_multiple_chunks() {
    let raw = close_delimited_response(&[b'x'; 12]);
    let err = feed_chunked("GET", BodyLimit::Error(10), &raw, 3).expect_err("over the limit fails");
    assert!(err.contains("output exceeds 10 bytes limit"), "{err}");
}

#[test]
fn body_limit_error_accepts_exactly_at_limit_across_chunks() {
    let raw = close_delimited_response(&[b'x'; 9]);
    let decoded = feed_chunked("GET", BodyLimit::Error(9), &raw, 3).expect("exactly at the limit is fine");
    assert_eq!(decoded.body.len(), 9);
}

#[test]
fn body_limit_error_content_length_over_limit_is_rejected_at_header() {
    let raw = content_length_response(b"helloo");
    let err = feed_all(BodyLimit::Error(5), &raw).expect_err("a declared length over the limit fails");
    assert!(err.contains("body too large"), "{err}");
}

#[test]
fn body_limit_error_accepts_no_content_body() {
    let decoded = feed_all(BodyLimit::Error(5), b"HTTP/1.1 204 No Content\r\n\r\n").expect("204 is fine");
    assert!(decoded.body.is_empty());
}

#[test]
fn body_limit_truncate_still_truncates_after_limit() {
    let raw = content_length_response(b"hello world");
    let decoded = feed_all(BodyLimit::Truncate(5), &raw).expect("truncation goes on");
    assert_eq!(decoded.body, b"hello");
}

#[test]
fn decode_response_waits_for_more_and_keeps_headers() {
    let raw = b"HTTP/1.1 200 OK\r\nContent-Type: application/json\r\nContent-Length: 2\r\n\r\n{}";
    assert!(matches!(decode_response("GET", &raw[..10], false, BodyLimit::Unlimited), ResponseStep::NeedMore));
    match decode_response("GET", &raw[..10], true, BodyLimit::Unlimited) {
        ResponseStep::Failed(m) => assert_eq!(m, "connection closed before headers complete"),
        other => panic!("unexpected {other:?}"),
    }
    let decoded = feed_chunked("GET", BodyLimit::Unlimited, raw, 7).expect("complete");
    assert_eq!(decoded.status, 200);
    assert_eq!(decoded.body, b"{}");
    assert!(decoded
        .headers
        .iter()
        .any(|(n, v)| n.eq_ignore_ascii_case("content-type") && v == "application/json"));
}

#[test]
fn chunked_body_is_decoded() {
    let raw = b"HTTP/1.1 200 OK\r\nTransfer-Encoding: chunked\r\n\r\n3\r\nabc\r\n2\r\nde\r\n0\r\n\r\n";
    let decoded = feed_chunked("GET", BodyLimit::Unlimited, raw, 5).expect("complete");
    assert_eq!(decoded.body, b"abcde");
}
