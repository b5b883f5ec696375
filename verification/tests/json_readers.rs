use shiguredo_container::docker_api::{
    check_pull_stream_errors, parse_exec_inspect_state, parse_ports,
};
use shiguredo_container::error::{ClientError, Error};
use shiguredo_container::image_config::{
    config_digest_from_manifest, parse_descriptor, parse_image_config, platform_os_and_raw_arch,
    select_manifest_digest,
};
use shiguredo_container::ports::{ContainerPort, IntoContainerPort};
use shiguredo_container::xpc::{
    match_image_descriptor, parse_container_list, parse_volume_configuration,
    ports_from_published, published_ports,
};

#[test]
fn parse_ports_extracts_tcp_udp_sctp() {
    let json = r#"{"NetworkSettings":{"Ports":{"80/tcp":[{"HostPort":"8080"}],"53/udp":[{"HostPort":"5353"}],"5060/sctp":[{"HostPort":"5061"}]}}}"#;
    let ports = parse_ports(json);
    assert_eq!(ports.map_to_host_port_ipv4(80.tcp()), Some(8080));
    assert_eq!(ports.map_to_host_port_ipv4(53.udp()), Some(5353));
    assert_eq!(ports.map_to_host_port_ipv4(5060.sctp()), Some(5061));
}

#[test]
fn parse_ports_returns_empty_when_network_settings_missing() {
    let ports = parse_ports(r#"{}"#);
    assert!(ports.map_to_host_port_ipv4(80.tcp()).is_none());
}

#[test]
fn parse_ports_returns_empty_when_ports_missing() {
    let ports = parse_ports(r#"{"NetworkSettings":{}}"#);
    assert!(ports.map_to_host_port_ipv4(80.tcp()).is_none());
}

#[test]
fn parse_ports_ignores_invalid_port_strings() {
    let json = r#"{"NetworkSettings":{"Ports":{"abc/tcp":[{"HostPort":"8080"}],"80/xyz":[{"HostPort":"8080"}]}}}"#;
    let ports = parse_ports(json);
    assert!(ports.map_to_host_port_ipv4(80.tcp()).is_none());
}

#[test]
fn parse_ports_keeps_last_binding_and_skips_null() {
    let json = r#"{"NetworkSettings":{"Ports":{"80/tcp":[{"HostIp":"0.0.0.0","HostPort":"1"},{"HostIp":"::","HostPort":"2"}],"81/tcp":null,"1/2/tcp":[{"HostPort":"3"}]}}}"#;
    let ports = parse_ports(json);
    assert_eq!(ports.map_to_host_port_ipv4(80.tcp()), Some(2));
    assert_eq!(ports.map_to_host_port_ipv4(81.tcp()), None);
    assert_eq!(ports.map_to_host_port_ipv6(80.tcp()), None);
}

fn expect_other(err: ClientError) -> String {
    match err {
        ClientError::Other(msg) => msg,
        other => panic!("not Other: {}", other.to_string()),
    }
}

fn expect_json(err: ClientError) {
    match err {
        ClientError::Json(_) => {}
        other => panic!("not Json: {}", other.to_string()),
    }
}

#[test]
fn check_pull_stream_errors_detects_error_and_detail() {
    let err = check_pull_stream_errors(
        br#"{"error":"denied","errorDetail":{"message":"detail denied"}}"#,
    )
    .expect_err("error line fails");
    assert_eq!(expect_other(err), "denied");
    let err = check_pull_stream_errors(br#"{"error":"only error"}"#).expect_err("fails");
    assert_eq!(expect_other(err), "only error");
    let err =
        check_pull_stream_errors(br#"{"errorDetail":{"message":"only detail"}}"#).expect_err("fails");
    assert_eq!(expect_other(err), "only detail");
    let err = check_pull_stream_errors(br#"{"error":"","errorDetail":{"message":"real"}}"#)
        .expect_err("fails");
    assert_eq!(expect_other(err), "real");
}

#[test]
fn check_pull_stream_errors_ignores_empty_error_fields() {
    check_pull_stream_errors(br#"{"error":""}"#).expect("empty error is fine");
    check_pull_stream_errors(br#"{"errorDetail":{}}"#).expect("empty detail is fine");
}

#[test]
fn check_pull_stream_errors_accepts_progress_and_aux() {
    let body = b"{\"status\":\"Pulling from library/nginx\"}\n{\"status\":\"Download complete\"}\n";
    check_pull_stream_errors(body).expect("progress only");
    check_pull_stream_errors(br#"{"aux":{"ID":"sha256:dead"}}"#).expect("aux only");
}

#[test]
fn check_pull_stream_errors_rejects_non_object_and_bad_json() {
    expect_json(check_pull_stream_errors(b"[]").expect_err("array line"));
    expect_json(check_pull_stream_errors(b"{not-json").expect_err("bad JSON"));
    expect_json(check_pull_stream_errors(&[0xff, 0xfe]).expect_err("not UTF-8"));
}

#[test]
fn check_pull_stream_errors_fails_on_error_after_progress() {
    let body = b"{\"status\":\"Pulling\"}\n{\"error\":\"boom\"}\n";
    let err = check_pull_stream_errors(body).expect_err("error after progress");
    assert_eq!(expect_other(err), "boom");
}

#[test]
fn check_pull_stream_errors_accepts_empty_body() {
    check_pull_stream_errors(b"").expect("empty body");
    check_pull_stream_errors(b"\n\n").expect("blank lines");
}

#[test]
fn check_pull_stream_errors_trims_lines() {
    check_pull_stream_errors(b"  {\"status\":\"x\"}  \r\n\r\n").expect("trimmed lines");
    let err = check_pull_stream_errors(b"\t[1]\r\r\n").expect_err("array line");
    match err {
        ClientError::Json(m) => assert_eq!(m, "expected object in pull stream, got [1]"),
        other => panic!("unexpected {}", other.to_string()),
    }
}

#[test]
fn parse_exec_inspect_state_reads_running_and_exit_code() {
    let (running, exit_code) =
        parse_exec_inspect_state(br#"{"Running":false,"ExitCode":7}"#).expect("parses");
    assert!(!running);
    assert_eq!(exit_code, Some(7));
    let (running, _exit_code) =
        parse_exec_inspect_state(br#"{"Running":true,"ExitCode":0}"#).expect("parses");
    assert!(running);
}

#[test]
fn parse_exec_inspect_state_treats_missing_running_as_finished() {
    let (running, exit_code) = parse_exec_inspect_state(br#"{"Running":"yes"}"#).expect("parses");
    assert!(!running);
    assert_eq!(exit_code, None);
    let (running, _) = parse_exec_inspect_state(br#"{}"#).expect("parses");
    assert!(!running);
}

#[test]
fn parse_exec_inspect_state_rejects_invalid_json() {
    assert!(parse_exec_inspect_state(b"\xff\xfe").is_err());
    assert!(parse_exec_inspect_state(b"not json").is_err());
}

#[test]
fn parse_descriptor_extracts_media_type_and_digest() {
    let raw = r#"{"mediaType":"application/vnd.oci.image.index.v1+json","digest":"sha256:abc","size":123}"#;
    let desc = parse_descriptor(raw).expect("parses");
    assert_eq!(desc.media_type, "application/vnd.oci.image.index.v1+json");
    assert_eq!(desc.digest, "sha256:abc");
}

#[test]
fn parse_descriptor_reports_missing_digest() {
    let err = parse_descriptor(r#"{"mediaType":"x"}"#).err().expect("digest is required");
    assert!(matches!(err, Error::Client(ClientError::Json(ref m)) if m.starts_with("descriptor digest: ")));
}

const TWO_ARCHES: &str = r#"{"manifests":[
    {"digest":"sha256:amd64","platform":{"architecture":"amd64","os":"linux"}},
    {"digest":"sha256:arm64","platform":{"architecture":"arm64","os":"linux"}}
]}"#;

#[test]
fn select_manifest_digest_matches_platform() {
    let digest = select_manifest_digest(TWO_ARCHES.as_bytes(), Some("linux/arm64"), "amd64")
        .expect("selects");
    assert_eq!(digest, "sha256:arm64");
}

#[test]
fn select_manifest_digest_defaults_to_host_arch() {
    let digest = select_manifest_digest(TWO_ARCHES.as_bytes(), None, "arm64").expect("selects");
    assert_eq!(digest, "sha256:arm64");
}

#[test]
fn select_manifest_digest_ignores_variant_suffix() {
    let digest = select_manifest_digest(TWO_ARCHES.as_bytes(), Some("linux/arm64/v8"), "amd64")
        .expect("selects");
    assert_eq!(digest, "sha256:arm64");
}

#[test]
fn select_manifest_digest_matches_os_on_primary_path() {
    let index = r#"{"manifests":[
        {"digest":"sha256:win-amd64","platform":{"architecture":"amd64","os":"windows"}},
        {"digest":"sha256:linux-amd64","platform":{"architecture":"amd64","os":"linux"}}
    ]}"#;
    let digest =
        select_manifest_digest(index.as_bytes(), Some("linux/amd64"), "arm64").expect("selects");
    assert_eq!(digest, "sha256:linux-amd64");
}

#[test]
fn select_manifest_digest_matches_os_on_preferred_fallback() {
    let index = r#"{"manifests":[
        {"digest":"sha256:win-arm64","platform":{"architecture":"arm64","os":"windows"}},
        {"digest":"sha256:linux-amd64","platform":{"architecture":"amd64","os":"linux"}}
    ]}"#;
    let digest = select_manifest_digest(index.as_bytes(), None, "arm64").expect("selects");
    assert_eq!(digest, "sha256:linux-amd64");
}

#[test]
fn select_manifest_digest_soft_first_matches_os() {
    let index = r#"{"manifests":[
        {"digest":"sha256:win-arm64","platform":{"architecture":"arm64","os":"windows"}},
        {"digest":"sha256:win-amd64","platform":{"architecture":"amd64","os":"windows"}},
        {"digest":"sha256:linux-s390x","platform":{"architecture":"s390x","os":"linux"}}
    ]}"#;
    let digest = select_manifest_digest(index.as_bytes(), None, "arm64").expect("selects");
    assert_eq!(digest, "sha256:linux-s390x");
}

#[test]
fn select_manifest_digest_single_component_defaults_os_linux() {
    let digest =
        select_manifest_digest(TWO_ARCHES.as_bytes(), Some("amd64"), "arm64").expect("selects");
    assert_eq!(digest, "sha256:amd64");
}

#[test]
fn select_manifest_digest_unknown_arch_stays_on_linux() {
    assert_eq!(platform_os_and_raw_arch(Some("linux/arm/v7")), ("linux", "arm"));
    let index = r#"{"manifests":[
        {"digest":"sha256:win-amd64","platform":{"architecture":"amd64","os":"windows"}},
        {"digest":"sha256:linux-arm64","platform":{"architecture":"arm64","os":"linux"}},
        {"digest":"sha256:linux-amd64","platform":{"architecture":"amd64","os":"linux"}}
    ]}"#;
    let digest =
        select_manifest_digest(index.as_bytes(), Some("linux/arm/v7"), "arm64").expect("selects");
    assert!(digest == "sha256:linux-arm64" || digest == "sha256:linux-amd64", "{digest}");
}

#[test]
fn select_manifest_digest_skips_entries_missing_os() {
    let index = r#"{"manifests":[
        {"digest":"sha256:arch-only","platform":{"architecture":"amd64"}},
        {"digest":"sha256:linux-amd64","platform":{"architecture":"amd64","os":"linux"}}
    ]}"#;
    let digest =
        select_manifest_digest(index.as_bytes(), Some("linux/amd64"), "arm64").expect("selects");
    assert_eq!(digest, "sha256:linux-amd64");
}

#[test]
fn config_digest_from_manifest_extracts_config_digest() {
    let manifest = r#"{"schemaVersion":2,"config":{"mediaType":"application/vnd.oci.image.config.v1+json","digest":"sha256:cfg","size":1}}"#;
    let digest = config_digest_from_manifest(manifest.as_bytes()).expect("reads");
    assert_eq!(digest, "sha256:cfg");
}

#[test]
fn parse_image_config_extracts_entrypoint_and_cmd() {
    let config = r#"{"config":{"Entrypoint":["/bin/sh","-c"],"Cmd":["echo","hi"]}}"#;
    let cfg = parse_image_config(config.as_bytes()).expect("parses");
    assert_eq!(cfg.entrypoint, Some(vec!["/bin/sh".into(), "-c".into()]));
    assert_eq!(cfg.cmd, Some(vec!["echo".into(), "hi".into()]));
}

#[test]
fn parse_image_config_handles_missing_fields() {
    let cfg = parse_image_config(r#"{"config":{}}"#.as_bytes()).expect("parses");
    assert_eq!(cfg.entrypoint, None);
    assert_eq!(cfg.cmd, None);
}

#[test]
fn parse_image_config_drops_arrays_with_non_strings() {
    let cfg = parse_image_config(r#"{"config":{"Cmd":["a",1],"Entrypoint":[]}}"#.as_bytes())
        .expect("parses");
    assert_eq!(cfg.cmd, None);
    assert_eq!(cfg.entrypoint, Some(Vec::<String>::new()));
}

#[test]
fn select_manifest_digest_skips_attestation_at_head() {
    let index = r#"{"manifests":[
        {"digest":"sha256:attestation","platform":{"architecture":"unknown","os":"unknown"}},
        {"digest":"sha256:linux-amd64","platform":{"architecture":"amd64","os":"linux"}}
    ]}"#;
    let digest =
        select_manifest_digest(index.as_bytes(), Some("linux/amd64"), "arm64").expect("selects");
    assert_eq!(digest, "sha256:linux-amd64");
}

#[test]
fn select_manifest_digest_errors_when_all_attestation() {
    let index = r#"{"manifests":[
        {"digest":"sha256:att1","platform":{"architecture":"unknown","os":"unknown"}},
        {"digest":"sha256:att2","platform":{"architecture":"unknown","os":"unknown"}}
    ]}"#;
    let err = select_manifest_digest(index.as_bytes(), None, "arm64").err().expect("fails");
    assert!(err.to_string().contains("no valid manifests"), "{}", err.to_string());
}

#[test]
fn select_manifest_digest_soft_first_skips_unknown_arch() {
    let index = r#"{"manifests":[
        {"digest":"sha256:linux-unknown","platform":{"architecture":"unknown","os":"linux"}},
        {"digest":"sha256:linux-s390x","platform":{"architecture":"s390x","os":"linux"}}
    ]}"#;
    let digest = select_manifest_digest(index.as_bytes(), None, "arm64").expect("selects");
    assert_eq!(digest, "sha256:linux-s390x");
}

#[test]
fn select_manifest_digest_hard_first_skips_attestation() {
    let index = r#"{"manifests":[
        {"digest":"sha256:attestation","platform":{"architecture":"unknown","os":"unknown"}},
        {"digest":"sha256:win-amd64","platform":{"architecture":"amd64","os":"windows"}}
    ]}"#;
    let digest = select_manifest_digest(index.as_bytes(), None, "arm64").expect("selects");
    assert_eq!(digest, "sha256:win-amd64");
}

#[test]
fn select_manifest_digest_soft_first_keeps_missing_arch() {
    let index = r#"{"manifests":[
        {"digest":"sha256:linux-no-arch","platform":{"os":"linux"}},
        {"digest":"sha256:linux-s390x","platform":{"architecture":"s390x","os":"linux"}}
    ]}"#;
    let digest = select_manifest_digest(index.as_bytes(), None, "arm64").expect("selects");
    assert_eq!(digest, "sha256:linux-no-arch");
}

#[test]
fn select_manifest_digest_errors_when_explicit_platform_has_no_match() {
    let index = r#"{"manifests":[
        {"digest":"sha256:linux-arm64","platform":{"architecture":"arm64","os":"linux"}},
        {"digest":"sha256:linux-s390x","platform":{"architecture":"s390x","os":"linux"}}
    ]}"#;
    let err = select_manifest_digest(index.as_bytes(), Some("linux/amd64"), "arm64")
        .err()
        .expect("no match");
    assert!(err.to_string().contains("no matching manifest for linux/amd64"));
    let win_only = r#"{"manifests":[
        {"digest":"sha256:win-amd64","platform":{"architecture":"amd64","os":"windows"}}
    ]}"#;
    let err = select_manifest_digest(win_only.as_bytes(), Some("linux/amd64"), "arm64")
        .err()
        .expect("no match");
    assert!(err.to_string().contains("no matching manifest for linux/amd64"));
}

#[test]
fn parse_volume_configuration_extracts_source_and_format() {
    let json = br#"{
        "name": "data",
        "driver": "local",
        "format": "ext4",
        "source": "/host/volumes/data/volume.img"
    }"#;
    let resolution = parse_volume_configuration(json).expect("parses");
    assert_eq!(resolution.source, "/host/volumes/data/volume.img");
    assert_eq!(resolution.format, "ext4");
}

#[test]
fn parse_volume_configuration_rejects_missing_source() {
    let err = parse_volume_configuration(br#"{"name":"data","format":"ext4"}"#).err().expect("fails");
    assert!(matches!(err, Error::Client(ClientError::Json(_))));
}

#[test]
fn parse_volume_configuration_rejects_missing_format() {
    let err = parse_volume_configuration(br#"{"name":"data","source":"/host/volumes/data/volume.img"}"#)
        .err()
        .expect("fails");
    assert!(matches!(err, Error::Client(ClientError::Json(_))));
}

#[test]
fn parse_volume_configuration_rejects_invalid_json() {
    let err = parse_volume_configuration(b"not-json").err().expect("fails");
    assert!(matches!(err, Error::Client(ClientError::Json(_))));
}

#[test]
fn parse_volume_configuration_rejects_non_utf8() {
    let err = parse_volume_configuration(&[0xff, 0xfe]).err().expect("fails");
    assert!(matches!(err, Error::Client(ClientError::Json(_))));
}

#[test]
fn match_image_descriptor_rejects_invalid_json() {
    let err = match_image_descriptor(b"not-json", "alpine:latest").unwrap_err();
    assert!(matches!(err, ClientError::Json(_)));
}

#[test]
fn match_image_descriptor_rejects_non_array_json() {
    let err = match_image_descriptor(b"{}", "alpine:latest").unwrap_err();
    assert!(matches!(err, ClientError::Json(_)));
}

#[test]
fn match_image_descriptor_empty_or_empty_array_is_not_found() {
    assert!(matches!(match_image_descriptor(b"", "alpine:latest"), Err(ClientError::ImageNotFound(_))));
    assert!(matches!(match_image_descriptor(b"[]", "alpine:latest"), Err(ClientError::ImageNotFound(_))));
}

#[test]
fn match_image_descriptor_finds_normalized_reference() {
    let json = br#"[{"reference":"docker.io/library/alpine:latest","descriptor":{"mediaType":"application/vnd.oci.image.index.v1+json","digest":"sha256:dead","size":1}}]"#;
    let desc = match_image_descriptor(json, "alpine:latest").expect("matches");
    assert!(desc.contains("sha256:dead"), "{desc}");
}

#[test]
fn match_image_descriptor_missing_descriptor_is_other() {
    let json = br#"[
        {"reference":"docker.io/library/alpine:latest"},
        {"reference":"docker.io/library/alpine:latest","descriptor":{"mediaType":"application/vnd.oci.image.index.v1+json","digest":"sha256:later","size":1}}
    ]"#;
    let err = match_image_descriptor(json, "alpine:latest").unwrap_err();
    match err {
        ClientError::Other(msg) => assert!(msg.contains("descriptor is missing"), "{msg}"),
        other => panic!("expected Other, got {}", other.to_string()),
    }
}

#[test]
fn match_image_descriptor_rejects_non_utf8() {
    let err = match_image_descriptor(&[0xff, 0xfe], "alpine:latest").unwrap_err();
    assert!(matches!(err, ClientError::Json(_)));
    assert!(err.to_string().contains("not UTF-8"), "{}", err.to_string());
}

#[test]
fn parse_container_list_rejects_non_utf8() {
    let err = parse_container_list(&[0xff, 0xfe], "test-id").unwrap_err();
    assert!(matches!(err, ClientError::Json(_)));
    assert!(err.to_string().contains("containerList response is not UTF-8"));
}

#[test]
fn parse_container_list_returns_container_not_found_for_empty_data() {
    let err = parse_container_list(&[], "test-id").unwrap_err();
    assert!(matches!(err, ClientError::ContainerNotFound(_)));
}

#[test]
fn parse_container_list_rejects_invalid_json() {
    let err = parse_container_list(b"this is not json", "test-id").unwrap_err();
    assert!(matches!(err, ClientError::Json(_)));
    assert!(!err.to_string().contains("is not UTF-8"));
}

fn published_by_family(json: &str) -> shiguredo_container::ports::Ports {
    let entries = published_ports(json);
    let ipv6: Vec<bool> = entries
        .iter()
        .map(|p| p.host_address.contains(':'))
        .collect();
    ports_from_published(&entries, &ipv6)
}

#[test]
fn parse_published_ports_splits_ipv4_and_ipv6_by_host_address() {
    let json = r#"{"configuration":{"publishedPorts":[
        {"hostAddress":"0.0.0.0","hostPort":18080,"containerPort":80,"proto":"tcp"},
        {"hostAddress":"::","hostPort":18081,"containerPort":81,"proto":"tcp"}
    ]}}"#;
    let ports = published_by_family(json);
    assert_eq!(ports.map_to_host_port_ipv4(80u16.into()), Some(18080));
    assert_eq!(ports.map_to_host_port_ipv6(80u16.into()), None);
    assert_eq!(ports.map_to_host_port_ipv6(81u16.into()), Some(18081));
    assert_eq!(ports.map_to_host_port_ipv4(81u16.into()), None);
}

#[test]
fn parse_published_ports_skips_zero_ports() {
    let json = r#"{"configuration":{"publishedPorts":[
        {"hostAddress":"0.0.0.0","hostPort":0,"containerPort":80,"proto":"tcp"},
        {"hostAddress":"0.0.0.0","hostPort":18081,"containerPort":0,"proto":"tcp"},
        {"hostAddress":"0.0.0.0","hostPort":18082,"containerPort":82,"proto":"tcp"}
    ]}}"#;
    let ports = published_by_family(json);
    assert_eq!(ports.map_to_host_port_ipv4(80u16.into()), None);
    assert_eq!(ports.map_to_host_port_ipv4(0u16.into()), None);
    assert_eq!(ports.map_to_host_port_ipv4(82u16.into()), Some(18082));
}

#[test]
fn published_ports_read_protocols_and_defaults() {
    let json = r#"{"configuration":{"publishedPorts":[
        {"hostPort":1,"containerPort":2,"proto":"udp"},
        {"hostPort":3,"containerPort":4}
    ]}}"#;
    let entries = published_ports(json);
    assert_eq!(entries.len(), 2);
    assert_eq!(entries[0].container_port, ContainerPort::Udp(2));
    assert_eq!(entries[1].container_port, ContainerPort::Tcp(4));
    assert_eq!(entries[1].host_address, "");
}
