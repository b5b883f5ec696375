use shiguredo_container::container_cfg::{
    build_config, ports_to_allocate, CfgRequest, ContainerCfg, ProcessUser,
};
use shiguredo_container::error::Error;
use shiguredo_container::image_config::ImageConfig;
use shiguredo_container::mounts::{AccessMode, Mount};
use shiguredo_container::ports::{ContainerPort, IntoContainerPort, PortMapping};

fn request(image: &str, cmd: &[&str]) -> CfgRequest {
    CfgRequest {
        descriptor: image.to_string(),
        entrypoint: None,
        cmd: cmd.iter().map(|s| s.to_string()).collect(),
        env: vec![],
        working_dir: None,
        mounts: vec![],
        ports: None,
        expose_ports: vec![],
        platform: None,
        privileged: false,
        cap_add: None,
        cap_drop: None,
        network: None,
        hostname: None,
        container_name: None,
        init: false,
        shm_size: None,
        user: None,
        ssh: false,
        readonly_rootfs: false,
        labels: vec![],
        open_stdin: None,
    }
}

fn build(req: &CfgRequest, id: &str, image: &ImageConfig) -> Result<ContainerCfg, Error> {
    let allocated: Vec<u16> = ports_to_allocate(req).iter().map(|_| 49152).collect();
    build_config(req, id, "{}", image, &allocated)
}

fn sleep_request() -> CfgRequest {
    request("alpine:latest", &["sleep", "1"])
}

#[test]
fn shm_size_is_reflected_in_container_cfg_json() {
    let mut req = sleep_request();
    req.shm_size = Some(2 * 1024 * 1024 * 1024);
    let cfg = build(&req, "test-id", &ImageConfig::default()).expect("builds");
    assert_eq!(cfg.shm_size, Some(2 * 1024 * 1024 * 1024));
}

#[test]
fn shm_size_is_null_by_default_in_container_cfg_json() {
    let cfg = build(&sleep_request(), "test-id", &ImageConfig::default()).expect("builds");
    assert_eq!(cfg.shm_size, None);
}

#[test]
fn user_numeric_is_reflected_in_container_cfg_json() {
    let mut req = sleep_request();
    req.user = Some("1000:1000".into());
    let cfg = build(&req, "test-id", &ImageConfig::default()).expect("builds");
    assert!(matches!(cfg.user, ProcessUser::Id { uid: 1000, gid: 1000 }));
}

#[test]
fn user_name_is_raw_in_container_cfg_json() {
    let mut req = sleep_request();
    req.user = Some("nobody".into());
    let cfg = build(&req, "test-id", &ImageConfig::default()).expect("builds");
    assert!(matches!(cfg.user, ProcessUser::Raw { ref user_string } if user_string == "nobody"));
}

#[test]
fn network_is_reflected_in_container_cfg_json() {
    let mut req = sleep_request();
    req.network = Some("my-net".into());
    let cfg = build(&req, "test-id", &ImageConfig::default()).expect("builds");
    assert_eq!(cfg.network, "my-net");
}

#[test]
fn network_is_default_when_unspecified_in_container_cfg_json() {
    let cfg = build(&sleep_request(), "test-id", &ImageConfig::default()).expect("builds");
    assert_eq!(cfg.network, "default");
}

#[test]
fn hostname_is_reflected_in_container_cfg_json() {
    let mut req = sleep_request();
    req.hostname = Some("guest-host".into());
    let cfg = build(&req, "test-id", &ImageConfig::default()).expect("builds");
    assert_eq!(cfg.hostname, "guest-host");
}

#[test]
fn hostname_falls_back_to_container_name_when_unspecified() {
    let mut req = sleep_request();
    req.container_name = Some("named-box".into());
    let cfg = build(&req, "test-id", &ImageConfig::default()).expect("builds");
    assert_eq!(cfg.hostname, "named-box");
}

#[test]
fn hostname_falls_back_to_id_when_name_unspecified() {
    let cfg = build(&sleep_request(), "generated-id", &ImageConfig::default()).expect("builds");
    assert_eq!(cfg.hostname, "generated-id");
}

#[test]
fn hostname_wins_over_container_name_when_both_set() {
    let mut req = sleep_request();
    req.container_name = Some("container-name-value".into());
    req.hostname = Some("hostname-value".into());
    let cfg = build(&req, "test-id", &ImageConfig::default()).expect("builds");
    assert_eq!(cfg.hostname, "hostname-value");
}

#[test]
fn readonly_rootfs_true_is_reflected_in_container_cfg_json() {
    let mut req = sleep_request();
    req.readonly_rootfs = true;
    let cfg = build(&req, "test-id", &ImageConfig::default()).expect("builds");
    assert!(cfg.read_only);
}

#[test]
fn readonly_rootfs_defaults_to_false_in_container_cfg_json() {
    let cfg = build(&sleep_request(), "test-id", &ImageConfig::default()).expect("builds");
    assert!(!cfg.read_only);
}

#[test]
fn open_stdin_true_sets_terminal_in_container_cfg_json() {
    let mut req = sleep_request();
    req.open_stdin = Some(true);
    let cfg = build(&req, "test-id", &ImageConfig::default()).expect("builds");
    assert!(cfg.terminal);
}

#[test]
fn open_stdin_defaults_to_terminal_false() {
    let cfg = build(&sleep_request(), "test-id", &ImageConfig::default()).expect("builds");
    assert!(!cfg.terminal);
}

#[test]
fn entrypoint_receives_whole_cmd_as_arguments() {
    let mut req = request("alpine:latest", &["serve", "--port", "80"]);
    req.entrypoint = Some("/entry.sh".into());
    let cfg = build(&req, "test-id", &ImageConfig::default()).expect("builds");
    assert_eq!(cfg.init_exe, "/entry.sh");
    assert_eq!(cfg.init_args, vec!["serve", "--port", "80"]);
}

#[test]
fn missing_cmd_and_entrypoint_is_an_error() {
    let req = request("alpine:latest", &[]);
    assert!(build(&req, "test-id", &ImageConfig::default()).is_err());
}

#[test]
fn image_config_fallback_resolves_default_cmd() {
    let req = request("nginx:latest", &[]);
    let image = ImageConfig {
        entrypoint: None,
        cmd: Some(vec!["nginx".into(), "-g".into(), "daemon off;".into()]),
    };
    let cfg = build(&req, "test-id", &image).expect("builds");
    assert_eq!(cfg.init_exe, "nginx");
    assert_eq!(cfg.init_args, vec!["-g", "daemon off;"]);
}

#[test]
fn user_cmd_overrides_image_config_cmd() {
    let req = request("nginx:latest", &["sleep", "1"]);
    let image = ImageConfig { entrypoint: None, cmd: Some(vec!["nginx".into()]) };
    let cfg = build(&req, "test-id", &image).expect("builds");
    assert_eq!(cfg.init_exe, "sleep");
    assert_eq!(cfg.init_args, vec!["1"]);
}

#[test]
fn user_entrypoint_overrides_image_config_entrypoint() {
    let mut req = request("alpine:latest", &[]);
    req.entrypoint = Some("/bin/bash".into());
    let image = ImageConfig {
        entrypoint: Some(vec!["/bin/sh".into(), "-c".into()]),
        cmd: Some(vec!["echo".into(), "image".into()]),
    };
    let cfg = build(&req, "test-id", &image).expect("builds");
    assert_eq!(cfg.init_exe, "/bin/bash");
    assert_eq!(cfg.init_args, vec!["echo", "image"]);
}

#[test]
fn exposed_ports_get_auto_allocated_host_ports() {
    let mut req = sleep_request();
    req.expose_ports = vec![80.tcp()];
    assert_eq!(ports_to_allocate(&req), vec![80.tcp()]);
    let cfg = build(&req, "test-id", &ImageConfig::default()).expect("builds");
    assert_eq!(cfg.ports.len(), 1);
    assert_eq!(cfg.ports[0].container_port, 80);
    assert_ne!(cfg.ports[0].host_port, 0);

    let mut req = sleep_request();
    req.expose_ports = vec![80.tcp()];
    req.ports = Some(vec![PortMapping::new(18080, 80.tcp())]);
    assert!(ports_to_allocate(&req).is_empty());
    let cfg = build(&req, "test-id", &ImageConfig::default()).expect("builds");
    assert_eq!(cfg.ports.len(), 1);
    assert_eq!(cfg.ports[0].host_port, 18080);
}

#[test]
fn exposed_ports_are_allocated_once_per_port_and_protocol() {
    let mut req = sleep_request();
    req.expose_ports = vec![80.tcp(), 80.udp(), 80.tcp(), 53.udp()];
    req.ports = Some(vec![PortMapping::new(5353, ContainerPort::Udp(53))]);
    assert_eq!(ports_to_allocate(&req), vec![80.tcp(), 80.udp()]);
    let cfg = build_config(&req, "id", "{}", &ImageConfig::default(), &[1001, 1002]).expect("builds");
    let ports: Vec<(u16, u16, &str)> =
        cfg.ports.iter().map(|p| (p.host_port, p.container_port, p.proto.as_str())).collect();
    assert_eq!(ports, vec![(5353, 53, "udp"), (1001, 80, "tcp"), (1002, 80, "udp")]);
}

#[test]
fn sctp_exposed_port_is_rejected_by_build_config() {
    let mut req = sleep_request();
    req.expose_ports = vec![5060.sctp()];
    let err = build(&req, "test-id", &ImageConfig::default()).err().expect("refused");
    assert!(err.to_string().contains("SCTP port publishing is not supported on Apple container"));
}

#[test]
fn sctp_mapped_port_is_rejected_by_build_config() {
    let mut req = sleep_request();
    req.ports = Some(vec![PortMapping::new(15060, 5060.sctp())]);
    let err = build(&req, "test-id", &ImageConfig::default()).err().expect("refused");
    assert!(err.to_string().contains("SCTP port publishing is not supported on Apple container"));
}

#[test]
fn with_platform_amd64_enables_rosetta() {
    for platform in ["linux/amd64", "amd64"] {
        let mut req = sleep_request();
        req.platform = Some(platform.into());
        let cfg = build(&req, "test-id", &ImageConfig::default()).expect("builds");
        assert!(cfg.rosetta, "{platform}");
        assert_eq!(cfg.architecture, "amd64");
    }
    for platform in [Some("linux/arm64"), None, Some("linux/ppc64le")] {
        let mut req = sleep_request();
        req.platform = platform.map(|p| p.to_string());
        let cfg = build(&req, "test-id", &ImageConfig::default()).expect("builds");
        assert!(!cfg.rosetta);
        assert_eq!(cfg.architecture, "arm64");
    }
}

#[test]
fn mounts_are_mapped_to_xpc_payload_configuration() {
    let mut req = sleep_request();
    req.mounts = vec![
        Mount::bind_mount("/host/bind", "/container/bind"),
        Mount::volume_mount("data-volume", "/container/volume").with_access_mode(AccessMode::ReadOnly),
        Mount::tmpfs_mount("/container/tmpfs"),
    ];
    let cfg = build(&req, "test-id", &ImageConfig::default()).expect("builds");
    assert_eq!(cfg.mounts.len(), 3);
    assert_eq!(cfg.mounts[0].source, "/host/bind");
    assert_eq!(cfg.mounts[0].destination, "/container/bind");
    assert_eq!(cfg.mounts[0].fs_type, "virtiofs");
    assert_eq!(cfg.mounts[0].volume_name, None);
    assert_eq!(cfg.mounts[0].options, vec!["rw".to_string()]);
    assert_eq!(cfg.mounts[1].source, "data-volume");
    assert_eq!(cfg.mounts[1].fs_type, "volume");
    assert_eq!(cfg.mounts[1].volume_name.as_deref(), Some("data-volume"));
    assert_eq!(cfg.mounts[1].options, vec!["ro".to_string()]);
    assert_eq!(cfg.mounts[2].source, "tmpfs");
    assert_eq!(cfg.mounts[2].fs_type, "tmpfs");
    assert_eq!(cfg.mounts[2].volume_name, None);
    assert_eq!(cfg.mounts[2].options, vec!["rw".to_string()]);
}

#[test]
fn tmpfs_size_and_mode_are_reflected_in_mount_options() {
    let mut req = sleep_request();
    req.mounts = vec![Mount::tmpfs_mount("/container/tmpfs").with_size_bytes(64 * 1024 * 1024).with_mode(0o1777)];
    let cfg = build(&req, "test-id", &ImageConfig::default()).expect("builds");
    assert_eq!(cfg.mounts.len(), 1);
    assert_eq!(cfg.mounts[0].options, vec!["rw", "size=67108864", "mode=1777"]);
}

#[test]
fn capabilities_and_working_directory_are_mapped_to_container_cfg() {
    let mut req = sleep_request();
    req.cap_add = Some(vec!["NET_ADMIN".into()]);
    req.cap_drop = Some(vec!["MKNOD".into()]);
    req.working_dir = Some("/work".into());
    let cfg = build(&req, "test-id", &ImageConfig::default()).expect("builds");
    assert_eq!(cfg.cap_add, vec!["NET_ADMIN"]);
    assert_eq!(cfg.cap_drop, vec!["MKNOD"]);
    assert_eq!(cfg.working_directory, "/work");

    let mut req = sleep_request();
    req.privileged = true;
    req.cap_add = Some(vec!["NET_ADMIN".into()]);
    let cfg = build(&req, "test-id", &ImageConfig::default()).expect("builds");
    assert_eq!(cfg.cap_add, vec!["ALL"]);

    let cfg = build(&sleep_request(), "test-id", &ImageConfig::default()).expect("builds");
    assert!(cfg.cap_add.is_empty());
    assert!(cfg.cap_drop.is_empty());
    assert_eq!(cfg.working_directory, "/");
}

#[test]
fn image_reference_env_and_labels_are_carried() {
    let mut req = request("nginx:1.25", &["run"]);
    req.env = vec![("A".into(), "1".into()), ("B".into(), "x=y".into())];
    req.labels = vec![("k".into(), "v".into())];
    let cfg = build(&req, "id", &ImageConfig::default()).expect("builds");
    assert_eq!(cfg.image_ref, "docker.io/library/nginx:1.25");
    assert_eq!(cfg.init_env, vec!["A=1", "B=x=y"]);
    assert_eq!(cfg.labels, vec![("k".to_string(), "v".to_string())]);
    assert_eq!(cfg.cpus, 4);
    assert_eq!(cfg.image_descriptor, "{}");
}
