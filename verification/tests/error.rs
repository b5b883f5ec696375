use std::time::Duration;

use shiguredo_container::error::{
    ClientError, ContainerMissingInfo, Error, ExecError, HttpWaitError, WaitContainerError,
    WaitLogError, MAX_END_OF_STREAM_PREVIEW_BYTES,
};
use shiguredo_container::ports::ContainerPort;

#[test]
fn error_display_contains_variant_description() {
    let io = std::io::Error::new(std::io::ErrorKind::NotFound, "file missing");
    let err = Error::Io(io);
    assert!(err.to_string().contains("I/O error"));
}

#[test]
fn error_from_io_is_io_variant() {
    let io = std::io::Error::other("test");
    let err: Error = io.into();
    assert!(matches!(err, Error::Io(_)));
}

#[test]
fn client_error_display_roundtrip() {
    let err = ClientError::ImageNotFound("nginx:latest".into());
    let text = err.to_string();
    assert!(text.contains("nginx:latest") && text.contains("image not found"));
}

#[test]
fn wait_log_error_end_of_stream_display_contains_counts_and_preview() {
    let chunks = vec![b"hello".to_vec(), b" world".to_vec()];
    let err = WaitLogError::EndOfStream(chunks);
    let text = err.to_string();
    assert!(
        text.contains("11 bytes")
            && text.contains("2 chunks")
            && text.contains("log preview: hello world"),
        "{text}"
    );
}

#[test]
fn wait_log_error_end_of_stream_display_limits_preview_to_tail() {
    let chunks = vec![vec![b'a'; MAX_END_OF_STREAM_PREVIEW_BYTES], b"tail".to_vec()];
    let err = WaitLogError::EndOfStream(chunks);
    let text = err.to_string();
    assert!(text.contains("log preview: ") && text.ends_with("tail"), "{text}");
    assert!(!text.contains(&"a".repeat(MAX_END_OF_STREAM_PREVIEW_BYTES)), "{text}");
}

#[test]
fn wait_log_error_source_is_io_error() {
    let io = std::io::Error::other("io failed");
    let err = WaitLogError::Io(io);
    assert!(err.source().is_some());
}

#[test]
fn exec_error_wait_log_roundtrip() {
    let wait = WaitLogError::EndOfStream(vec![b"x".to_vec()]);
    let exec: ExecError = wait.into();
    assert!(matches!(exec, ExecError::WaitLog(_)));
    assert!(exec.source().is_some());
}

#[test]
fn container_missing_info_display_contains_id_and_path() {
    let info = ContainerMissingInfo { id: "abc".to_owned(), path: "bridge ip".to_owned() };
    let text = info.to_string();
    assert!(text.contains("abc") && text.contains("bridge ip"));
}

#[test]
fn wait_container_error_from_wait_log() {
    let wait = WaitLogError::EndOfStream(Vec::new());
    let err: WaitContainerError = wait.into();
    assert!(matches!(err, WaitContainerError::WaitLog(_)));
}

#[test]
fn http_wait_error_has_source_and_single_outer_prefix() {
    let err = Error::WaitContainer(WaitContainerError::HttpWait(HttpWaitError::NoResponseMatcher));
    let text = err.to_string();
    assert!(err.source().is_some());
    assert_eq!(text.matches("container is not ready:").count(), 1, "{text}");
}

#[test]
fn startup_timeout_display_contains_id_and_timeout() {
    let err = WaitContainerError::StartupTimeout {
        id: "test-container".into(),
        timeout: Duration::from_secs(2),
    };
    let text = err.to_string();
    assert!(text.contains("test-container") && text.contains("2s"), "{text}");
}

#[test]
fn error_messages_are_exact() {
    let err = Error::PortNotExposed { id: "c1".into(), port: ContainerPort::Udp(53) };
    assert_eq!(err.to_string(), "container 'c1' does not expose port 53/udp");
    let err = Error::Client(ClientError::ContainerPathNotFound("/no/such".into()));
    assert_eq!(err.to_string(), "client error: container path not found: /no/such");
    let err = Error::WaitContainer(WaitContainerError::UnexpectedExitCode {
        expected: 0,
        actual: Some(-3),
    });
    assert_eq!(
        err.to_string(),
        "container is not ready: container exited with unexpected code: expected 0, actual Some(-3)"
    );
    let err = Error::other("boom".to_string());
    assert_eq!(err.to_string(), "other error: boom");
}
