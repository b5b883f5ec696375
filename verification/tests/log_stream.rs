use shiguredo_container::client::check_log_head;
use shiguredo_container::log_buffer::{drain_buffer, SharedLogBuffer, DEFAULT_BUFFER_LIMIT};
use shiguredo_container::multiplex::{is_multiplex_content_type, FrameDemuxer};

fn frame(stream_type: u8, payload: &[u8]) -> Vec<u8> {
    let mut out = Vec::new();
    out.push(stream_type);
    out.extend_from_slice(&[0, 0, 0]);
    out.extend_from_slice(&(payload.len() as u32).to_be_bytes());
    out.extend_from_slice(payload);
    out
}

#[test]
fn demux_separates_stdout_and_stderr() {
    let mut stdout = SharedLogBuffer::new(DEFAULT_BUFFER_LIMIT);
    let mut stderr = SharedLogBuffer::new(DEFAULT_BUFFER_LIMIT);
    let mut demuxer = FrameDemuxer::new();
    let mut input = frame(1, b"out1");
    input.extend(frame(2, b"err1"));
    input.extend(frame(1, b"out2"));
    demuxer.feed(&input, &mut stdout, &mut stderr).expect("never fails without strict buffers");
    assert_eq!(drain_buffer(&stdout), b"out1out2");
    assert_eq!(drain_buffer(&stderr), b"err1");
}

#[test]
fn demux_handles_frame_split_across_chunks() {
    let mut stdout = SharedLogBuffer::new(DEFAULT_BUFFER_LIMIT);
    let mut stderr = SharedLogBuffer::new(DEFAULT_BUFFER_LIMIT);
    let mut demuxer = FrameDemuxer::new();
    let input = frame(1, b"hello world");
    let split_points = [3usize, 8, 12];
    let mut prev = 0;
    for &sp in &split_points {
        demuxer.feed(&input[prev..sp], &mut stdout, &mut stderr).expect("feed");
        prev = sp;
    }
    demuxer.feed(&input[prev..], &mut stdout, &mut stderr).expect("feed");
    assert_eq!(drain_buffer(&stdout), b"hello world");
}

#[test]
fn demux_ignores_stdin_and_empty_payload() {
    let mut stdout = SharedLogBuffer::new(DEFAULT_BUFFER_LIMIT);
    let mut stderr = SharedLogBuffer::new(DEFAULT_BUFFER_LIMIT);
    let mut demuxer = FrameDemuxer::new();
    let mut input = frame(0, b"stdin");
    input.extend(frame(1, b""));
    input.extend(frame(2, b"e"));
    demuxer.feed(&input, &mut stdout, &mut stderr).expect("feed");
    assert_eq!(drain_buffer(&stdout), b"");
    assert_eq!(drain_buffer(&stderr), b"e");
}

#[test]
fn demux_ignores_unknown_stream_types() {
    let mut stdout = SharedLogBuffer::new(DEFAULT_BUFFER_LIMIT);
    let mut stderr = SharedLogBuffer::new(DEFAULT_BUFFER_LIMIT);
    let mut demuxer = FrameDemuxer::new();
    let mut input = frame(3, b"x");
    input.extend(frame(255, b"y"));
    input.extend(frame(1, b"ok"));
    demuxer.feed(&input, &mut stdout, &mut stderr).expect("feed");
    assert_eq!(drain_buffer(&stdout), b"ok");
    assert_eq!(drain_buffer(&stderr), b"");
}

#[test]
fn demux_huge_payload_len_does_not_allocate_upfront() {
    let mut stdout = SharedLogBuffer::new(DEFAULT_BUFFER_LIMIT);
    let mut stderr = SharedLogBuffer::new(DEFAULT_BUFFER_LIMIT);
    let mut demuxer = FrameDemuxer::new();
    let mut input = vec![1u8, 0, 0, 0];
    input.extend_from_slice(&u32::MAX.to_be_bytes());
    input.extend_from_slice(b"abc");
    demuxer.feed(&input, &mut stdout, &mut stderr).expect("feed");
    assert_eq!(drain_buffer(&stdout), b"abc");
    assert!(demuxer.in_payload);
    assert_eq!(demuxer.payload_remaining, u32::MAX as usize - 3);
}

#[test]
fn shared_buffer_drops_oldest_over_limit() {
    let mut buffer = SharedLogBuffer::new(8);
    buffer.append(b"abcdefgh");
    buffer.append(b"ijkl");
    let mut out = [0u8; 16];
    let (n, _, _) = buffer.read_at(0, &mut out);
    assert_eq!(n, 8);
    assert_eq!(&out[..n], b"efghijkl");
}

#[test]
fn strict_buffer_accepts_exactly_at_limit() {
    let mut buffer = SharedLogBuffer::new_strict(8);
    assert!(buffer.append(b"abcdefgh"));
    assert_eq!(drain_buffer(&buffer), b"abcdefgh");
}

#[test]
fn strict_buffer_rejects_over_limit() {
    let mut buffer = SharedLogBuffer::new_strict(8);
    assert!(buffer.append(b"abcdefgh"));
    assert!(!buffer.append(b"i"));
    assert_eq!(drain_buffer(&buffer), b"abcdefgh");
}

#[test]
fn strict_buffer_rejects_single_chunk_over_limit() {
    let mut buffer = SharedLogBuffer::new_strict(8);
    assert!(!buffer.append(b"abcdefghi"));
    assert_eq!(drain_buffer(&buffer), b"");
}

#[test]
fn strict_demux_reports_overflow_error() {
    let mut stdout = SharedLogBuffer::new_strict(8);
    let mut stderr = SharedLogBuffer::new_strict(8);
    let mut demuxer = FrameDemuxer::new();
    let ok = demuxer.feed(&frame(1, b"abcdefgh"), &mut stdout, &mut stderr);
    assert!(ok.is_ok(), "{ok:?}");
    let err = demuxer.feed(&frame(1, b"i"), &mut stdout, &mut stderr);
    assert!(err.is_err());
    assert_eq!(err.expect_err("an error").to_string(), "stdout output exceeds 8 bytes limit");
}

#[test]
fn strict_demux_reports_stderr_overflow_error() {
    let mut stdout = SharedLogBuffer::new_strict(8);
    let mut stderr = SharedLogBuffer::new_strict(8);
    let mut demuxer = FrameDemuxer::new();
    demuxer.feed(&frame(2, b"abcdefgh"), &mut stdout, &mut stderr).expect("at the limit");
    let err = demuxer.feed(&frame(2, b"i"), &mut stdout, &mut stderr);
    assert!(err.is_err());
    assert_eq!(err.expect_err("an error").to_string(), "stderr output exceeds 8 bytes limit");
}

#[test]
fn shared_buffer_reader_behind_head_is_skipped() {
    let mut buffer = SharedLogBuffer::new(4);
    buffer.append(b"abcd");
    buffer.append(b"ef");
    let mut out = [0u8; 8];
    let (n, next, skipped) = buffer.read_at(0, &mut out);
    assert!(skipped);
    assert_eq!(&out[..n], b"cdef");
    assert_eq!(next, 6);
}

#[test]
fn multiplex_content_type_detection() {
    assert!(is_multiplex_content_type(None));
    assert!(is_multiplex_content_type(Some("")));
    assert!(is_multiplex_content_type(Some("application/vnd.docker.multiplexed-stream")));
    assert!(is_multiplex_content_type(Some("application/octet-stream")));
    assert!(is_multiplex_content_type(Some("application/octet-stream; charset=x")));
    assert!(!is_multiplex_content_type(Some("application/vnd.docker.raw-stream")));
}

#[test]
fn chunked_feeding_matches_whole_feeding() {
    let mut input = frame(1, b"first");
    input.extend(frame(2, b"second"));
    input.extend(frame(1, b""));
    input.extend(frame(7, b"skipped"));
    input.extend(frame(1, b"third"));
    let mut whole_out = SharedLogBuffer::new(DEFAULT_BUFFER_LIMIT);
    let mut whole_err = SharedLogBuffer::new(DEFAULT_BUFFER_LIMIT);
    FrameDemuxer::new().feed(&input, &mut whole_out, &mut whole_err).expect("feed");
    for chunk in 1..input.len() {
        let mut out = SharedLogBuffer::new(DEFAULT_BUFFER_LIMIT);
        let mut err = SharedLogBuffer::new(DEFAULT_BUFFER_LIMIT);
        let mut demuxer = FrameDemuxer::new();
        for piece in input.chunks(chunk) {
            demuxer.feed(piece, &mut out, &mut err).expect("feed");
        }
        assert_eq!(drain_buffer(&out), drain_buffer(&whole_out), "chunk {chunk}");
        assert_eq!(drain_buffer(&err), drain_buffer(&whole_err), "chunk {chunk}");
    }
    assert_eq!(drain_buffer(&whole_out), b"firstthird");
    assert_eq!(drain_buffer(&whole_err), b"second");
}

#[test]
fn buffer_keeps_last_limit_bytes_of_all_appends() {
    let mut buffer = SharedLogBuffer::new(5);
    for piece in [&b"ab"[..], b"cde", b"f", b"ghijkl", b"m"] {
        buffer.append(piece);
    }
    assert_eq!(drain_buffer(&buffer), b"ijklm");
}

#[test]
fn log_head_is_checked() {
    assert!(check_log_head(200, None).is_ok());
    assert_eq!(check_log_head(404, None).unwrap_err(), "logs request failed with status 404");
    assert_eq!(
        check_log_head(200, Some("application/vnd.docker.raw-stream")).unwrap_err(),
        "unsupported log stream content type: application/vnd.docker.raw-stream"
    );
}
