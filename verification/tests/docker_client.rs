use shiguredo_container::docker_api::{
    build_exposed_ports, build_port_bindings, classify_archive_404, json_port_bindings,
    parse_daemon_error_message, percent_encode_component, percent_encode_path_segment,
    resolve_exec_exit_code, split_pull_reference, ContainerConfig, CreateContainerBody,
    ExecConfig, ExecStartConfig, EXEC_EXIT_CODE_BACKOFF_MILLIS,
};
use shiguredo_container::error::ClientError;
use shiguredo_container::json::{escape_json, json_array, json_object};
use shiguredo_container::mounts::{AccessMode, Mount};
use shiguredo_container::multiplex::demux_exec_stream;
use shiguredo_container::ports::{ContainerPort, IntoContainerPort, PortMapping};

#[test]
fn escape_json_escapes_special_characters() {
    let escaped = escape_json("a\"b\\c\nd\te\x01");
    assert_eq!(escaped, "\"a\\\"b\\\\c\\nd\\te\\u0001\"");
}

#[test]
fn escape_json_roundtrips_through_nojson_for_samples() {
    for s in ["", "plain", "a\"b", "line\n", "タブ\t", "\\"] {
        let escaped = escape_json(s);
        let parsed = nojson::RawJson::parse(&escaped).expect("escape_json output parses");
        let value = String::try_from(parsed.value()).expect("a JSON string value");
        assert_eq!(value, s);
    }
}

#[test]
fn json_array_and_object_roundtrip_samples() {
    let items = vec!["a".to_string(), "b\"c".to_string()];
    let json = json_array(&items);
    let parsed = nojson::RawJson::parse(&json).expect("json_array output parses");
    let arr = parsed.value().to_array().expect("an array");
    let actual: Vec<String> = arr.map(|item| String::try_from(item).expect("a string")).collect();
    assert_eq!(actual, items);

    let map = vec![("k".to_string(), "v".to_string())];
    let json = json_object(&map);
    let parsed = nojson::RawJson::parse(&json).expect("json_object output parses");
    let obj = parsed.value().to_object().expect("an object");
    let mut actual = Vec::new();
    for (k, v) in obj {
        actual.push((
            String::try_from(k).expect("a string key"),
            String::try_from(v).expect("a string value"),
        ));
    }
    assert_eq!(actual, map);
}

#[test]
fn percent_encode_encodes_slash_in_image_refs() {
    assert_eq!(percent_encode_path_segment("ghcr.io/org/app:1.0"), "ghcr.io%2Forg%2Fapp%3A1.0");
    assert_eq!(percent_encode_component("ghcr.io/org/app"), "ghcr.io%2Forg%2Fapp");
}

#[test]
fn percent_encode_keeps_unreserved_and_encodes_bytes() {
    assert_eq!(percent_encode_component("a b~-_.Z9"), "a%20b~-_.Z9");
    assert_eq!(percent_encode_component("é"), "%C3%A9");
}

#[test]
fn build_exposed_ports_formats_protocols() {
    let ports = vec![
        PortMapping { container_port: 80.into(), host_port: 8080 },
        PortMapping { container_port: 53.udp(), host_port: 5353 },
        PortMapping { container_port: 5060.sctp(), host_port: 5061 },
    ];
    let exposed = build_exposed_ports(&ports);
    assert_eq!(exposed, vec!["80/tcp", "53/udp", "5060/sctp"]);
}

#[test]
fn port_bindings_are_sorted_and_last_mapping_wins() {
    let ports = vec![
        PortMapping::new(8080, ContainerPort::Tcp(80)),
        PortMapping::new(5353, ContainerPort::Udp(53)),
        PortMapping::new(9090, ContainerPort::Tcp(80)),
        PortMapping::new(1000, ContainerPort::Tcp(443)),
    ];
    let bindings = build_port_bindings(&ports);
    let keys: Vec<&str> = bindings.iter().map(|(k, _)| k.as_str()).collect();
    assert_eq!(keys, vec!["443/tcp", "53/udp", "80/tcp"]);
    assert_eq!(
        json_port_bindings(&bindings),
        r#"{"443/tcp":[{"HostIp":"0.0.0.0","HostPort":"1000"}],"53/udp":[{"HostIp":"0.0.0.0","HostPort":"5353"}],"80/tcp":[{"HostIp":"0.0.0.0","HostPort":"9090"}]}"#
    );
}

fn config_with_mounts(mounts: Vec<Mount>) -> ContainerConfig {
    ContainerConfig {
        image: "alpine:latest".into(),
        entrypoint: None,
        cmd: vec![],
        env: vec![],
        ports: vec![],
        mounts,
        name: None,
        labels: vec![],
        privileged: false,
        working_dir: None,
        user: None,
        init: false,
        health_check: None,
        cap_add: vec![],
        cap_drop: vec![],
        shm_size: None,
        readonly_rootfs: false,
        hostname: None,
        open_stdin: None,
        network: None,
        platform: None,
        extra_hosts: vec![],
    }
}

#[test]
fn from_config_bind_readonly_gets_ro_suffix() {
    let mount = Mount::bind_mount("/host", "/container").with_access_mode(AccessMode::ReadOnly);
    let body = CreateContainerBody::from_config(config_with_mounts(vec![mount])).expect("bind ok");
    assert_eq!(body.host_config.binds, vec!["/host:/container:ro".to_string()]);
}

#[test]
fn from_config_bind_readwrite_gets_rw_suffix() {
    let mount = Mount::bind_mount("/host", "/container").with_access_mode(AccessMode::ReadWrite);
    let body = CreateContainerBody::from_config(config_with_mounts(vec![mount])).expect("bind ok");
    assert_eq!(body.host_config.binds, vec!["/host:/container:rw".to_string()]);
}

#[test]
fn from_config_volume_mount_is_reflected_in_mounts() {
    let body = CreateContainerBody::from_config(config_with_mounts(vec![Mount::volume_mount(
        "data",
        "/container/data",
    )]))
    .expect("volume ok");
    let json = body.to_json_string().expect("json");
    assert!(json.contains("\"Type\":\"volume\""), "{json}");
    assert!(json.contains("\"Source\":\"data\""), "{json}");
    assert!(json.contains("\"Target\":\"/container/data\""), "{json}");
}

#[test]
fn from_config_tmpfs_mount_is_reflected_in_mounts() {
    let body = CreateContainerBody::from_config(config_with_mounts(vec![
        Mount::tmpfs_mount("/tmpfs").with_size_bytes(1_000_000).with_mode(0o1777),
    ]))
    .expect("tmpfs ok");
    let json = body.to_json_string().expect("json");
    assert!(json.contains("\"Type\":\"tmpfs\""), "{json}");
    assert!(json.contains("\"Target\":\"/tmpfs\""), "{json}");
    assert!(json.contains("\"SizeBytes\":1000000"), "{json}");
    assert!(json.contains("\"Mode\":1023"), "{json}");
}

#[test]
fn from_config_rejects_mount_without_target() {
    let mut mount = Mount::volume_mount("data", "/x");
    mount.target = None;
    let err = CreateContainerBody::from_config(config_with_mounts(vec![mount]))
        .err()
        .expect("a volume without target is refused");
    assert_eq!(err.to_string(), "client error: configuration error: volume mount target is required");
}

#[test]
fn create_body_json_is_exact() {
    let mut config = config_with_mounts(vec![]);
    config.cmd = vec!["sleep".into(), "1".into()];
    config.ports = vec![PortMapping::new(8080, ContainerPort::Tcp(80))];
    config.labels = vec![("k".into(), "v".into())];
    config.open_stdin = Some(true);
    config.network = Some("net".into());
    let body = CreateContainerBody::from_config(config).expect("ok");
    assert_eq!(
        body.to_json_string().expect("json"),
        r#"{"Image":"alpine:latest","Cmd":["sleep","1"],"Labels":{"k":"v"},"ExposedPorts":{"80/tcp":{}},"OpenStdin":true,"NetworkingConfig":{"EndpointsConfig":{"net":{}}},"HostConfig":{"Privileged":false,"Init":false,"ReadonlyRootfs":false,"PortBindings":{"80/tcp":[{"HostIp":"0.0.0.0","HostPort":"8080"}]}}}"#
    );
}

#[test]
fn exec_configs_serialize_exactly() {
    let exec = ExecConfig {
        cmd: vec!["ls".into()],
        attach_stdout: true,
        attach_stderr: false,
        env: vec![],
    };
    assert_eq!(
        exec.to_json_string().expect("json"),
        r#"{"AttachStdout":true,"AttachStderr":false,"Cmd":["ls"]}"#
    );
    let start = ExecStartConfig { detach: false, tty: false };
    assert_eq!(start.to_json_string().expect("json"), r#"{"Detach":false,"Tty":false}"#);
}

#[test]
fn split_pull_reference_accepts_registry_port_and_digest() {
    assert_eq!(
        split_pull_reference("localhost:5000/nginx:latest"),
        ("localhost:5000/nginx", "latest")
    );
    assert_eq!(split_pull_reference("localhost:5000/nginx"), ("localhost:5000/nginx", "latest"));
    assert_eq!(split_pull_reference("nginx:1.25"), ("nginx", "1.25"));
    assert_eq!(split_pull_reference("nginx"), ("nginx", "latest"));
    assert_eq!(
        split_pull_reference("docker.io/library/nginx:latest"),
        ("docker.io/library/nginx", "latest")
    );
    assert_eq!(split_pull_reference("nginx@sha256:ab12cd"), ("nginx", "sha256:ab12cd"));
    assert_eq!(split_pull_reference("nginx:latest@sha256:ab12cd"), ("nginx", "sha256:ab12cd"));
    assert_eq!(
        split_pull_reference("localhost:5000/nginx:1.25@sha256:ab12cd"),
        ("localhost:5000/nginx", "sha256:ab12cd")
    );
    assert_eq!(split_pull_reference("nginx:sha256:ab12cd"), ("nginx", "sha256:ab12cd"));
    assert_eq!(split_pull_reference("nginx:"), ("nginx", "latest"));
    assert_eq!(split_pull_reference("nginx@"), ("nginx", "latest"));
}

fn make_frame(stream_type: u8, payload: &[u8]) -> Vec<u8> {
    let mut frame = vec![stream_type, 0, 0, 0];
    frame.extend_from_slice(&(payload.len() as u32).to_be_bytes());
    frame.extend_from_slice(payload);
    frame
}

#[test]
fn demux_exec_stream_separates_stdout_and_stderr() {
    let mut data = make_frame(1, b"hello ");
    data.extend(make_frame(2, b"err "));
    data.extend(make_frame(1, b"world"));
    data.extend(make_frame(2, b"msg"));
    let (stdout, stderr) = demux_exec_stream(&data);
    assert_eq!(stdout, b"hello world");
    assert_eq!(stderr, b"err msg");
}

#[test]
fn demux_exec_stream_handles_empty_input() {
    let (stdout, stderr) = demux_exec_stream(b"");
    assert!(stdout.is_empty());
    assert!(stderr.is_empty());
}

#[test]
fn demux_exec_stream_ignores_stdin_and_unknown_types() {
    let mut data = make_frame(0, b"stdin");
    data.extend(make_frame(3, b"unknown"));
    data.extend(make_frame(1, b"out"));
    let (stdout, stderr) = demux_exec_stream(&data);
    assert_eq!(stdout, b"out");
    assert!(stderr.is_empty());
}

#[test]
fn demux_exec_stream_handles_zero_length_payload() {
    let mut data = make_frame(1, b"");
    data.extend(make_frame(1, b"data"));
    let (stdout, stderr) = demux_exec_stream(&data);
    assert_eq!(stdout, b"data");
    assert!(stderr.is_empty());
}

#[test]
fn demux_exec_stream_handles_truncated_frame() {
    let mut data = make_frame(1, b"hello");
    data.extend_from_slice(&[2, 0, 0, 0, 0, 0, 0, 10]);
    data.extend_from_slice(b"par");
    let (stdout, stderr) = demux_exec_stream(&data);
    assert_eq!(stdout, b"hello");
    assert_eq!(stderr, b"par");
}

#[test]
fn classify_archive_404_path_not_found_message() {
    let body = br#"{"message":"Could not find the file /no/such in container abc123"}"#;
    let err = classify_archive_404("abc123", "/no/such", body);
    assert!(matches!(err, ClientError::ContainerPathNotFound(ref p) if p == "/no/such"));
    assert_eq!(err.to_string(), "container path not found: /no/such");
}

#[test]
fn classify_archive_404_container_not_found_message() {
    let body = br#"{"message":"No such container: abc123"}"#;
    let err = classify_archive_404("abc123", "/etc/hostname", body);
    assert!(matches!(err, ClientError::ContainerNotFound(ref id) if id == "abc123"));
}

#[test]
fn classify_archive_404_falls_back_on_unknown_message() {
    for body in [
        &b""[..],
        b"not-json",
        br#"{"error":"something else"}"#,
        br#"{"message":"an unknown daemon message"}"#,
    ] {
        let err = classify_archive_404("abc123", "/etc/hostname", body);
        assert!(matches!(err, ClientError::ContainerNotFound(_)), "{body:?}");
    }
}

#[test]
fn classify_archive_404_prefix_match_not_contains() {
    let body =
        br#"{"message":"Could not find the file /etc/No such container: x in container abc123"}"#;
    let err = classify_archive_404("abc123", "/etc/No such container: x", body);
    assert!(matches!(err, ClientError::ContainerPathNotFound(_)));
}

#[test]
fn parse_daemon_error_message_rejects_non_string_and_non_object() {
    for body in [&br#"{"message":123}"#[..], b"[1,2,3]", b"\"just a string\"", &[0xff, 0xfe][..]] {
        assert!(parse_daemon_error_message(body).is_none(), "{body:?}");
    }
}

#[test]
fn parse_daemon_error_message_extracts_message() {
    assert_eq!(
        parse_daemon_error_message(br#"{"message":"No such container: abc"}"#).as_deref(),
        Some("No such container: abc")
    );
}

#[test]
fn resolve_exec_exit_code_picks_first_finished_state() {
    let states = [(true, None), (true, None), (false, Some(3))];
    assert_eq!(resolve_exec_exit_code(&states), Some(3));
}

#[test]
fn resolve_exec_exit_code_returns_none_when_always_running() {
    let states = [(true, None), (true, None), (true, None)];
    assert_eq!(resolve_exec_exit_code(&states), None);
}

#[test]
fn resolve_exec_exit_code_handles_first_state_finished() {
    let states = [(false, Some(0))];
    assert_eq!(resolve_exec_exit_code(&states), Some(0));
}

#[test]
fn exec_exit_code_backoff_sequence_matches_spec() {
    assert_eq!(&EXEC_EXIT_CODE_BACKOFF_MILLIS, &[10, 50, 200, 500, 1000]);
    let attempts = EXEC_EXIT_CODE_BACKOFF_MILLIS.len() + 1;
    let total_sleep: u64 = EXEC_EXIT_CODE_BACKOFF_MILLIS.iter().sum();
    assert_eq!(attempts, 6);
    assert_eq!(total_sleep, 1760);
}
