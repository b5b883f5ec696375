use shiguredo_container::client::{restart_step, RestartAction, RestartEvent};
use shiguredo_container::client::HostOs;
use shiguredo_container::wait::{ExitCodeAction, WaitState};
use shiguredo_container::ports::ContainerPort;
use shiguredo_container::container_cfg::parse_user;
use shiguredo_container::error::{ClientError, Error, ErrorSource};
use shiguredo_container::copy::{CopyDataSource, CopyFromContainerError, CopyToContainer};
use shiguredo_container::log_buffer::{drain_buffer, FollowCursor, FollowRead, SharedLogBuffer};
use shiguredo_container::multiplex::FrameDemuxer;
use shiguredo_container::tar::parse_first_regular_file_from_ustar;

fn frame(stream_type: u8, payload: &[u8]) -> Vec<u8> {
    let mut out = vec![stream_type, 0, 0, 0];
    out.extend_from_slice(&(payload.len() as u32).to_be_bytes());
    out.extend_from_slice(payload);
    out
}

#[test]
fn head_counts_the_dropped_front_of_a_long_chunk() {
    let mut buffer = SharedLogBuffer::new(2);
    assert!(buffer.append(b"abc"));
    assert_eq!(buffer.head, 1);
    assert_eq!(drain_buffer(&buffer), b"bc");
    let mut cursor = FollowCursor::new();
    let mut buf = [0u8; 4];
    assert_eq!(cursor.read_step(&buffer, false, &mut buf), (FollowRead::Data(2), true));
    assert_eq!(&buf[..2], b"bc");
}

#[test]
fn strict_overflow_keeps_what_was_held() {
    let mut stdout = SharedLogBuffer::new_strict(8);
    let mut stderr = SharedLogBuffer::new_strict(8);
    let mut demuxer = FrameDemuxer::new();
    demuxer.feed(&frame(1, b"abcdefgh"), &mut stdout, &mut stderr).expect("at the limit");
    let err = demuxer.feed(&frame(1, b"i"), &mut stdout, &mut stderr).expect_err("over the limit");
    assert_eq!(err.to_string(), "stdout output exceeds 8 bytes limit");
    assert_eq!(drain_buffer(&stdout), b"abcdefgh");
    assert!(drain_buffer(&stderr).is_empty());
}

#[test]
fn bad_gid_names_the_user_string() {
    match parse_user(Some("1000:staff")) {
        Err(Error::Other(m)) => assert_eq!(m, "invalid gid in user string: 1000:staff"),
        r => panic!("unexpected: {r:?}"),
    }
}

#[test]
fn short_archive_is_invalid_data() {
    match parse_first_regular_file_from_ustar(&[0u8; 100]) {
        Err(CopyFromContainerError::Io(e)) => {
            assert_eq!(e.kind(), std::io::ErrorKind::InvalidData);
            assert_eq!(e.to_string(), "truncated tar header");
        }
        r => panic!("unexpected: {r:?}"),
    }
}

#[test]
fn copy_to_container_accepts_str_target() {
    let c = CopyToContainer::new(CopyDataSource::Data(b"x".to_vec()), "/data/file.txt");
    assert_eq!(c.target.path, "/data/file.txt");
    assert_eq!(c.target.mode, 0o644);
}

#[test]
fn error_source_names_its_cause() {
    let e = Error::Client(ClientError::ContainerNotFound("c".into()));
    match e.source() {
        Some(ErrorSource::Client(ClientError::ContainerNotFound(id))) => assert_eq!(id, "c"),
        _ => panic!("expected the client error"),
    }
    let e = Error::Other("boom".into());
    match e.source() {
        Some(ErrorSource::Other(m)) => assert_eq!(m, "boom"),
        _ => panic!("expected the message"),
    }
}

#[test]
fn exit_code_steps() {
    let mut state = WaitState::new();
    assert_eq!(state.exit_code_start(), ExitCodeAction::InspectRunning);
    assert_eq!(state.exit_code_after_inspect(HostOs::Linux, false), ExitCodeAction::Done(None));
    assert_eq!(state.exit_code_after_inspect(HostOs::MacOs, true), ExitCodeAction::Done(None));
    assert_eq!(state.exit_code_after_inspect(HostOs::MacOs, false), ExitCodeAction::WaitBriefly(0));
    assert_eq!(state.exit_code_after_wait(0, None), None);
    let generation = state.bump();
    assert_eq!(state.exit_code_after_wait(0, Some(3)), None);
    assert_eq!(state.exit_code, None);
    assert_eq!(state.exit_code_after_wait(generation, Some(3)), Some(3));
    assert_eq!(state.exit_code_start(), ExitCodeAction::Done(Some(3)));
}

#[test]
fn unsigned_parsing_takes_a_plus_sign() {
    assert_eq!("+80/tcp".parse::<ContainerPort>(), Ok(ContainerPort::Tcp(80)));
    assert!("-80/tcp".parse::<ContainerPort>().is_err());
    assert!("+/tcp".parse::<ContainerPort>().is_err());
}

#[test]
fn restart_renews_the_log_stream_or_rolls_back() {
    assert_eq!(restart_step(true, RestartEvent::Begin), RestartAction::StopOldStream);
    assert_eq!(restart_step(true, RestartEvent::OldStreamStopped), RestartAction::StartContainer);
    assert_eq!(restart_step(true, RestartEvent::ContainerStarted), RestartAction::StartLogSession);
    assert_eq!(restart_step(true, RestartEvent::LogSessionStarted), RestartAction::InstallLogSession);
    assert_eq!(restart_step(true, RestartEvent::LogSessionFailed), RestartAction::StopContainer);
    assert_eq!(restart_step(true, RestartEvent::ContainerStopped), RestartAction::Finish { ok: false });
    assert_eq!(restart_step(false, RestartEvent::Begin), RestartAction::StartContainer);
    assert_eq!(restart_step(false, RestartEvent::ContainerStarted), RestartAction::Finish { ok: true });
}

#[test]
fn feeding_in_many_pieces_matches_one_feed() {
    let mut stream = frame(1, b"hello");
    stream.extend(frame(2, b"oops"));
    stream.extend(frame(1, b" world"));
    let mut one_out = SharedLogBuffer::new(64);
    let mut one_err = SharedLogBuffer::new(64);
    FrameDemuxer::new().feed(&stream, &mut one_out, &mut one_err).expect("fits");
    for cut in [1usize, 3, 7, 9] {
        let mut out = SharedLogBuffer::new(64);
        let mut err = SharedLogBuffer::new(64);
        let mut demuxer = FrameDemuxer::new();
        for piece in stream.chunks(cut) {
            demuxer.feed(piece, &mut out, &mut err).expect("fits");
        }
        assert_eq!(drain_buffer(&out), drain_buffer(&one_out));
        assert_eq!(drain_buffer(&err), drain_buffer(&one_err));
    }
    assert_eq!(drain_buffer(&one_out), b"hello world");
    assert_eq!(drain_buffer(&one_err), b"oops");
}
