use shiguredo_container::client::{check_copy_source_path, removes_on_drop, Command};
use shiguredo_container::error::{ClientError, Error};
use shiguredo_container::image_config::{first_config_fetch, next_config_step, ConfigFetch, ConfigStep};
use shiguredo_container::log_buffer::{FollowCursor, FollowRead, SharedLogBuffer};
use shiguredo_container::mounts::Mount;
use shiguredo_container::xpc::{
    check_log_fds, check_volume_name, exec_executable_and_arguments, tolerate_missing,
    volume_from_reply, volume_names, volume_resolution_error, xpc_stop_signal_and_grace,
};

fn other_message(r: Error) -> String {
    match r {
        Error::Client(ClientError::Other(m)) => m,
        e => panic!("unexpected error: {e:?}"),
    }
}

#[test]
fn xpc_stop_plans() {
    assert_eq!(xpc_stop_signal_and_grace(None), ("SIGTERM", 30));
    assert_eq!(xpc_stop_signal_and_grace(Some(0)), ("SIGKILL", 0));
    assert_eq!(xpc_stop_signal_and_grace(Some(-5)), ("SIGTERM", i32::MAX as u64));
    assert_eq!(xpc_stop_signal_and_grace(Some(7)), ("SIGTERM", 7));
}

#[test]
fn missing_container_counts_as_done() {
    assert!(tolerate_missing(Ok(())).is_ok());
    assert!(tolerate_missing(Err(Error::Client(ClientError::ContainerNotFound("x".into())))).is_ok());
    assert!(tolerate_missing(Err(Error::Client(ClientError::Xpc(
        "XPC error notFound: no such container".into()
    ))))
    .is_ok());
    match tolerate_missing(Err(Error::Client(ClientError::Xpc("XPC error busy".into())))) {
        Err(Error::Client(ClientError::Xpc(m))) => assert_eq!(m, "XPC error busy"),
        r => panic!("unexpected: {r:?}"),
    }
}

#[test]
fn log_fds_must_be_two_valid_ones() {
    assert_eq!(check_log_fds(&[3, 4]).unwrap(), (3, 4));
    assert_eq!(check_log_fds(&[3, 4, 5]).unwrap(), (3, 4));
    assert_eq!(
        other_message(check_log_fds(&[3]).unwrap_err()),
        "containerLogs did not return enough fds"
    );
    assert_eq!(
        other_message(check_log_fds(&[3, -1]).unwrap_err()),
        "containerLogs returned an invalid fd"
    );
}

#[test]
fn exec_splits_executable_and_arguments() {
    let cmd = vec!["sh".to_string(), "-c".to_string(), "echo hi".to_string()];
    let (exe, args) = exec_executable_and_arguments(&cmd).unwrap();
    assert_eq!(exe, "sh");
    assert_eq!(args, vec!["-c".to_string(), "echo hi".to_string()]);
    let (exe, args) = exec_executable_and_arguments(&["true".to_string()]).unwrap();
    assert_eq!(exe, "true");
    assert!(args.is_empty());
    assert_eq!(
        other_message(exec_executable_and_arguments(&[]).unwrap_err()),
        "exec requires at least one argument"
    );
}

#[test]
fn volume_name_check_quotes_the_name() {
    assert!(check_volume_name("data_1").is_ok());
    assert_eq!(
        other_message(check_volume_name("bad name").unwrap_err()),
        "invalid volume name \"bad name\": must match ^[A-Za-z0-9][A-Za-z0-9_.-]*$ and be at most 255 characters"
    );
    assert_eq!(
        other_message(check_volume_name("").unwrap_err()),
        "invalid volume name \"\": must match ^[A-Za-z0-9][A-Za-z0-9_.-]*$ and be at most 255 characters"
    );
}

#[test]
fn volume_from_reply_needs_data() {
    assert_eq!(
        other_message(volume_from_reply("v", None).unwrap_err()),
        "volume 'v' resolution did not return volume"
    );
    let v = volume_from_reply("v", Some(br#"{"source":"/vol/v.img","format":"ext4"}"#)).unwrap();
    assert_eq!(v.source, "/vol/v.img");
    assert_eq!(v.format, "ext4");
}

#[test]
fn volume_names_are_sorted_and_unique() {
    let mounts = vec![
        Mount::volume_mount("b", "/b"),
        Mount::bind_mount("/host", "/h"),
        Mount::volume_mount("a", "/a"),
        Mount::volume_mount("b", "/b2"),
        Mount::tmpfs_mount("/t"),
    ];
    assert_eq!(volume_names(&mounts), vec!["a".to_string(), "b".to_string()]);
    assert!(volume_names(&[]).is_empty());
}

#[test]
fn volume_resolution_error_names_the_volume() {
    let e = volume_resolution_error("data", &Error::Other("boom".into()));
    match e {
        Error::Other(m) => assert_eq!(m, "failed to resolve volume 'data': other error: boom"),
        e => panic!("unexpected: {e:?}"),
    }
}

#[test]
fn config_fetch_starts_by_media_type() {
    let idx = r#"{"mediaType":"application/vnd.oci.image.index.v1+json","digest":"sha256:i"}"#;
    let (kind, digest) = first_config_fetch(idx).unwrap();
    assert_eq!(kind, ConfigFetch::Index);
    assert_eq!(digest, "sha256:i");
    let list = r#"{"mediaType":"application/vnd.docker.distribution.manifest.list.v2+json","digest":"sha256:l"}"#;
    assert_eq!(first_config_fetch(list).unwrap().0, ConfigFetch::Index);
    let man = r#"{"mediaType":"application/vnd.docker.distribution.manifest.v2+json","digest":"sha256:m"}"#;
    assert_eq!(first_config_fetch(man).unwrap().0, ConfigFetch::Manifest);
    let cfg = r#"{"mediaType":"application/vnd.oci.image.config.v1+json","digest":"sha256:c"}"#;
    assert_eq!(first_config_fetch(cfg).unwrap(), (ConfigFetch::Config, "sha256:c".to_string()));
    let odd = r#"{"mediaType":"text/plain","digest":"sha256:x"}"#;
    assert_eq!(
        other_message(first_config_fetch(odd).unwrap_err()),
        "unsupported image descriptor mediaType: text/plain"
    );
}

#[test]
fn config_steps_walk_index_manifest_config() {
    let index = br#"{"manifests":[{"digest":"sha256:m1","platform":{"os":"linux","architecture":"amd64"}}]}"#;
    match next_config_step(ConfigFetch::Index, index, Some("linux/amd64"), "arm64").unwrap() {
        ConfigStep::Fetch(ConfigFetch::Manifest, d) => assert_eq!(d, "sha256:m1"),
        s => panic!("unexpected: {s:?}"),
    }
    let manifest = br#"{"config":{"digest":"sha256:c1"}}"#;
    match next_config_step(ConfigFetch::Manifest, manifest, None, "arm64").unwrap() {
        ConfigStep::Fetch(ConfigFetch::Config, d) => assert_eq!(d, "sha256:c1"),
        s => panic!("unexpected: {s:?}"),
    }
    let config = br#"{"config":{"Cmd":["nginx"]}}"#;
    match next_config_step(ConfigFetch::Config, config, None, "arm64").unwrap() {
        ConfigStep::Done(c) => {
            assert_eq!(c.cmd, Some(vec!["nginx".to_string()]));
            assert_eq!(c.entrypoint, None);
        }
        s => panic!("unexpected: {s:?}"),
    }
    assert!(next_config_step(ConfigFetch::Manifest, b"{", None, "arm64").is_err());
}

#[test]
fn follow_cursor_reads_waits_and_ends() {
    let mut buffer = SharedLogBuffer::new(8);
    let mut cursor = FollowCursor::new();
    let mut buf = [0u8; 4];
    assert_eq!(cursor.read_step(&buffer, false, &mut buf), (FollowRead::Wait, false));
    assert!(buffer.append(b"hello"));
    assert_eq!(cursor.read_step(&buffer, false, &mut buf), (FollowRead::Data(4), false));
    assert_eq!(&buf, b"hell");
    assert_eq!(cursor.read_step(&buffer, false, &mut buf), (FollowRead::Data(1), false));
    assert_eq!(buf[0], b'o');
    assert_eq!(cursor.read_step(&buffer, true, &mut buf), (FollowRead::Eof, false));
}

#[test]
fn follow_cursor_reports_a_skip_once() {
    let mut buffer = SharedLogBuffer::new(4);
    let mut cursor = FollowCursor::new();
    let mut buf = [0u8; 2];
    assert!(buffer.append(b"abc"));
    assert!(buffer.append(b"def"));
    assert_eq!(cursor.read_step(&buffer, false, &mut buf), (FollowRead::Data(2), true));
    assert_eq!(&buf, b"cd");
    assert!(buffer.append(b"gh"));
    assert!(buffer.append(b"ijkl"));
    assert_eq!(cursor.read_step(&buffer, false, &mut buf), (FollowRead::Data(2), false));
    assert_eq!(&buf, b"ij");
    assert!(cursor.warned_skip);
}

#[test]
fn drop_removes_unless_kept_or_removed() {
    assert!(removes_on_drop(false, Command::Remove));
    assert!(!removes_on_drop(false, Command::Keep));
    assert!(!removes_on_drop(true, Command::Remove));
}

#[test]
fn copy_source_must_be_absolute() {
    assert!(check_copy_source_path("/etc/hosts").is_ok());
    for bad in ["", "etc/hosts", "./x"] {
        match check_copy_source_path(bad) {
            Err(Error::Other(m)) => assert_eq!(m, "copy_file_from path must be absolute"),
            r => panic!("unexpected: {r:?}"),
        }
    }
}
