use shiguredo_container::error::{ClientError, Error};
use shiguredo_container::exec::{ExecJoin, JoinAction, JoinEvent, ReaderOutcome};
use shiguredo_container::log_buffer::{FollowCursor, FollowRead, SharedLogBuffer, DEFAULT_BUFFER_LIMIT};

fn done_error(action: JoinAction) -> String {
    match action {
        JoinAction::Done(Err(Error::Client(ClientError::Other(m)))) => m,
        other => panic!("unexpected {other:?}"),
    }
}

#[test]
fn join_exec_readers_succeeds_when_both_streams_deliver_in_time() {
    let mut join = ExecJoin::new(1000);
    assert!(matches!(
        join.step(JoinEvent::Stderr(ReaderOutcome::Bytes(b"err-body".to_vec()))),
        JoinAction::WaitUntilDeadline
    ));
    match join.step(JoinEvent::Stdout(ReaderOutcome::Bytes(b"out-body".to_vec()))) {
        JoinAction::Done(Ok((stdout, stderr))) => {
            assert_eq!(stdout, b"out-body");
            assert_eq!(stderr, b"err-body");
        }
        other => panic!("unexpected {other:?}"),
    }
}

#[test]
fn join_exec_readers_returns_error_on_disconnect() {
    let mut join = ExecJoin::new(1000);
    let msg = done_error(join.step(JoinEvent::Disconnected));
    assert!(msg.contains("terminated without sending"), "{msg}");
    assert!(msg.contains("stdout/stderr"), "{msg}");
}

#[test]
fn join_exec_readers_disconnect_reports_missing_stream() {
    let mut join = ExecJoin::new(1000);
    assert!(matches!(
        join.step(JoinEvent::Stdout(ReaderOutcome::Bytes(b"partial".to_vec()))),
        JoinAction::WaitUntilDeadline
    ));
    let msg = done_error(join.step(JoinEvent::Disconnected));
    assert!(msg.contains("stderr"), "{msg}");
    assert!(!msg.contains("stdout"), "{msg}");
    assert!(msg.contains("terminated without sending"), "{msg}");
}

#[test]
fn join_exec_readers_returns_read_error() {
    let mut join = ExecJoin::new(1000);
    join.step(JoinEvent::Stdout(ReaderOutcome::Failed("broken pipe".to_string())));
    let msg = done_error(join.step(JoinEvent::Stderr(ReaderOutcome::Bytes(Vec::new()))));
    assert!(msg.contains("read stdout failed"), "{msg}");
}

#[test]
fn sync_log_reader_eofs_when_terminated() {
    let mut buffer = SharedLogBuffer::new(DEFAULT_BUFFER_LIMIT);
    let mut cursor = FollowCursor::new();
    assert!(buffer.append(b"data"));
    let terminated = true;
    let mut out = Vec::new();
    let mut buf = [0u8; 3];
    loop {
        match cursor.read_step(&buffer, terminated, &mut buf).0 {
            FollowRead::Data(n) => out.extend_from_slice(&buf[..n]),
            FollowRead::Eof => break,
            FollowRead::Wait => panic!("a terminated stream never waits"),
        }
    }
    assert_eq!(out, b"data");
}
