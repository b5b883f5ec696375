use shiguredo_container::client::{command_from, Client, Command, HostOs, SyncOneshotReader};
use shiguredo_container::container_cfg::{mount_cfg, parse_user, ProcessUser};
use shiguredo_container::error::{ClientError, Error};
use shiguredo_container::exec::{
    ExecJoin, ExecResult, JoinAction, JoinEvent, ReaderOutcome, SyncExecResult,
};
use shiguredo_container::mounts::{AccessMode, Mount};
use shiguredo_container::ports::{ContainerPort, PortMapping};
use shiguredo_container::exec::{check_cmd_ready_condition, CmdWaitFor};
use shiguredo_container::exec::check_exec_log_source;
use shiguredo_container::wait::WaitFor;
use shiguredo_container::exec::{ExitCodePoll, PollAction};
use shiguredo_container::exec::{check_exec_status, exec_path, parse_exec_id};

#[test]
fn client_detect_uses_docker_socket() {
    match Client::detect(HostOs::Linux).expect("always succeeds") {
        Client::Linux(c) => assert_eq!(c.socket_path, "/var/run/docker.sock"),
        Client::MacOs(_) => panic!("expected the Docker client"),
    }
    assert!(matches!(Client::detect(HostOs::MacOs), Ok(Client::MacOs(_))));
}

#[test]
fn command_follows_environment_value() {
    assert_eq!(command_from(Some("keep")), Command::Keep);
    assert_eq!(command_from(Some("remove")), Command::Remove);
    assert_eq!(command_from(None), Command::Remove);
    assert_eq!(Command::default(), Command::Remove);
}

#[test]
fn parse_user_reads_numeric_and_named_users() {
    assert!(matches!(parse_user(None), Ok(ProcessUser::Id { uid: 0, gid: 0 })));
    assert!(matches!(parse_user(Some("")), Ok(ProcessUser::Id { uid: 0, gid: 0 })));
    assert!(matches!(parse_user(Some("1000")), Ok(ProcessUser::Id { uid: 1000, gid: 0 })));
    assert!(matches!(parse_user(Some("1000:1000")), Ok(ProcessUser::Id { uid: 1000, gid: 1000 })));
    assert!(matches!(parse_user(Some("nobody")), Ok(ProcessUser::Raw { ref user_string }) if user_string == "nobody"));
    assert!(matches!(parse_user(Some("app:staff")), Ok(ProcessUser::Raw { ref user_string }) if user_string == "app:staff"));
    let err = parse_user(Some("1000:staff")).err().expect("a number needs a numeric group");
    assert_eq!(err.to_string(), "other error: invalid gid in user string: 1000:staff");
}

#[test]
fn mount_cfg_maps_kinds_and_options() {
    let bind = mount_cfg(&Mount::bind_mount("/host/bind", "/container/bind"));
    assert_eq!(bind.fs_type, "virtiofs");
    assert_eq!(bind.source, "/host/bind");
    assert_eq!(bind.destination, "/container/bind");
    assert_eq!(bind.options, vec!["rw"]);
    let volume = mount_cfg(
        &Mount::volume_mount("data-volume", "/container/volume").with_access_mode(AccessMode::ReadOnly),
    );
    assert_eq!(volume.fs_type, "volume");
    assert_eq!(volume.volume_name.as_deref(), Some("data-volume"));
    assert_eq!(volume.options, vec!["ro"]);
    let tmpfs = mount_cfg(&Mount::tmpfs_mount("/container/tmpfs").with_size_bytes(64 * 1024 * 1024).with_mode(0o1777));
    assert_eq!(tmpfs.fs_type, "tmpfs");
    assert_eq!(tmpfs.source, "tmpfs");
    assert_eq!(tmpfs.options, vec!["rw", "size=67108864", "mode=1777"]);
}

#[test]
fn exec_result_reads_consume_output() {
    let mut result = ExecResult::new(Some(0), b"out".to_vec(), b"err".to_vec());
    assert_eq!(result.exit_code().unwrap(), Some(0));
    assert_eq!(result.stdout_to_vec().unwrap(), b"out");
    assert_eq!(result.stdout_to_vec().unwrap(), b"");
    assert_eq!(result.stderr(), b"err");
    let mut sync = SyncExecResult { inner: result };
    assert_eq!(sync.stderr_to_vec().unwrap(), b"err");
    assert_eq!(sync.stderr(), b"");
    assert_eq!(sync.exit_code().unwrap(), Some(0));
}

#[test]
fn exec_join_collects_both_outputs() {
    let mut join = ExecJoin::new(5000);
    assert!(matches!(
        join.step(JoinEvent::Stderr(ReaderOutcome::Bytes(b"e".to_vec()))),
        JoinAction::WaitUntilDeadline
    ));
    match join.step(JoinEvent::Stdout(ReaderOutcome::Bytes(b"o".to_vec()))) {
        JoinAction::Done(Ok((out, err))) => {
            assert_eq!(out, b"o");
            assert_eq!(err, b"e");
        }
        other => panic!("unexpected {other:?}"),
    }
}

fn done_message(action: JoinAction) -> String {
    match action {
        JoinAction::Done(Err(Error::Client(ClientError::Other(m)))) => m,
        other => panic!("unexpected {other:?}"),
    }
}

#[test]
fn exec_join_reports_timeouts_and_disconnects() {
    let mut join = ExecJoin::new(5000);
    join.step(JoinEvent::Stdout(ReaderOutcome::Bytes(Vec::new())));
    assert!(matches!(join.step(JoinEvent::Timeout), JoinAction::CancelAndDrain));
    let msg = done_message(join.step(JoinEvent::Stderr(ReaderOutcome::Cancelled)));
    assert_eq!(msg, "read stderr timed out after 5000ms");

    let mut join = ExecJoin::new(5000);
    let msg = done_message(join.step(JoinEvent::Disconnected));
    assert_eq!(msg, "exec reader thread for stdout/stderr terminated without sending result");

    let mut join = ExecJoin::new(1);
    join.step(JoinEvent::Stdout(ReaderOutcome::Failed("broken pipe".into())));
    let msg = done_message(join.step(JoinEvent::Stderr(ReaderOutcome::Bytes(Vec::new()))));
    assert_eq!(msg, "read stdout failed: broken pipe");
}

#[test]
fn oneshot_reader_reads_fetched_stream() {
    let mut reader = SyncOneshotReader::new("/sock".into(), "id".into(), false);
    assert!(reader.needs_fetch());
    let mut buf = [0u8; 2];
    assert_eq!(reader.read_buffered(&mut buf), None);
    reader.deliver(Some((b"out".to_vec(), b"err".to_vec())));
    assert!(!reader.needs_fetch());
    assert_eq!(reader.read_buffered(&mut buf), Some(2));
    assert_eq!(&buf, b"er");
    assert_eq!(reader.read_buffered(&mut buf), Some(1));
    assert_eq!(buf[0], b'r');
    assert_eq!(reader.read_buffered(&mut buf), Some(0));
}

#[test]
fn port_mapping_accessors_and_text() {
    let m = PortMapping::new(8080, ContainerPort::Sctp(5060));
    assert_eq!(m.host_port(), 8080);
    assert_eq!(m.container_port(), ContainerPort::Sctp(5060));
    assert_eq!(m.container_port().to_string(), "5060/sctp");
    assert_eq!(ContainerPort::Tcp(0).to_string(), "0/tcp");
}

#[test]
fn container_port_display_from_str_roundtrip() {
    let mut count = 0usize;
    for n in (0u16..=u16::MAX).step_by(97).chain([0, 1, 9, 10, 65535]) {
        for port in [ContainerPort::Tcp(n), ContainerPort::Udp(n), ContainerPort::Sctp(n)] {
            let text = port.to_string();
            let parsed: ContainerPort = text.parse().expect("the text form parses");
            assert_eq!(parsed, port, "{text}");
            count += 1;
        }
    }
    assert!(count > 2000);
    assert!("80".parse::<ContainerPort>().is_err());
    assert!("80/tcp/x".parse::<ContainerPort>().is_err());
    assert!("80/icmp".parse::<ContainerPort>().is_err());
    assert!("65536/tcp".parse::<ContainerPort>().is_err());
}

#[test]
fn cmd_ready_conditions_are_checked() {
    let ok = check_cmd_ready_condition(
        &CmdWaitFor::StdOutMessage { message: b"ready".to_vec() },
        Some(0),
        b"server ready now",
        b"",
    );
    assert!(ok.is_ok());
    let err = check_cmd_ready_condition(
        &CmdWaitFor::StdErrMessage { message: b"boom".to_vec() },
        Some(0),
        b"boom",
        b"",
    )
    .err()
    .expect("missing on stderr");
    assert_eq!(err.to_string(), "other error: expected message not found in stderr: boom");
    let err = check_cmd_ready_condition(&CmdWaitFor::Exit { code: Some(0) }, Some(2), b"", b"")
        .err()
        .expect("code mismatch");
    assert_eq!(err.to_string(), "exec operation failed: exec process exited with code 2, expected 0");
    let err = check_cmd_ready_condition(&CmdWaitFor::Exit { code: Some(0) }, None, b"", b"")
        .err()
        .expect("unknown code");
    assert!(err.to_string().contains("exec exit code is unavailable"));
    assert!(check_cmd_ready_condition(&CmdWaitFor::Exit { code: None }, None, b"", b"").is_ok());
    assert!(check_cmd_ready_condition(&CmdWaitFor::Nothing, None, b"", b"").is_ok());
}

#[test]
fn exec_log_wait_without_log_source_returns_error() {
    let err = check_exec_log_source(false, &[WaitFor::message_on_stdout("ready")])
        .err()
        .expect("a log wait needs a log source");
    assert!(err.to_string().contains("log wait requires a log source"));
    assert!(check_exec_log_source(true, &[WaitFor::message_on_stdout("ready")]).is_ok());
    assert!(check_exec_log_source(false, &[WaitFor::seconds(1)]).is_ok());
}

#[test]
fn exit_code_polling_follows_backoff() {
    let mut poll = ExitCodePoll::new();
    let mut slept = Vec::new();
    loop {
        match poll.observe((true, None)) {
            PollAction::SleepThenInspect(ms) => slept.push(ms),
            PollAction::Done(code) => {
                assert_eq!(code, None);
                break;
            }
        }
    }
    assert_eq!(slept, vec![10, 50, 200, 500, 1000]);
    assert_eq!(poll.states.len(), 6);
    let mut poll = ExitCodePoll::new();
    assert_eq!(poll.observe((true, None)), PollAction::SleepThenInspect(10));
    assert_eq!(poll.observe((false, Some(3))), PollAction::Done(Some(3)));
}

#[test]
fn exec_request_helpers() {
    assert_eq!(exec_path("/containers/", "a b", "/exec"), "/containers/a%20b/exec");
    assert!(check_exec_status("failed to create exec", 201).is_ok());
    let err = check_exec_status("failed to create exec", 404).err().expect("error status");
    assert_eq!(err.to_string(), "client error: failed to create exec: 404");
    assert_eq!(parse_exec_id(Some(br#"{"Id":"abc"}"#)).unwrap(), "abc");
    assert!(parse_exec_id(None).is_err());
    assert!(parse_exec_id(Some(b"{}")).is_err());
}
