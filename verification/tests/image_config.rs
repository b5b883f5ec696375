use shiguredo_container::image_config::{
    platform_os_and_raw_arch, target_os_and_architecture, ImageConfig,
};

#[test]
fn effective_command_uses_user_entrypoint_and_user_cmd() {
    let cfg = ImageConfig {
        entrypoint: Some(vec!["/bin/sh".into(), "-c".into()]),
        cmd: Some(vec!["echo".into(), "image".into()]),
    };
    let (exe, args) = cfg.effective_command(Some("/bin/bash"), &["-c", "user"]).expect("ok");
    assert_eq!(exe, "/bin/bash");
    assert_eq!(args, vec!["-c", "user"]);
}

#[test]
fn effective_command_appends_image_cmd_to_image_entrypoint() {
    let cfg = ImageConfig {
        entrypoint: Some(vec!["/bin/sh".into(), "-c".into()]),
        cmd: Some(vec!["echo".into(), "hello".into()]),
    };
    let (exe, args) = cfg.effective_command(None, &[]).expect("ok");
    assert_eq!(exe, "/bin/sh");
    assert_eq!(args, vec!["-c", "echo", "hello"]);
}

#[test]
fn effective_command_uses_image_cmd_when_no_entrypoint() {
    let cfg = ImageConfig {
        entrypoint: None,
        cmd: Some(vec!["nginx".into(), "-g".into(), "daemon off;".into()]),
    };
    let (exe, args) = cfg.effective_command(None, &[]).expect("ok");
    assert_eq!(exe, "nginx");
    assert_eq!(args, vec!["-g", "daemon off;"]);
}

#[test]
fn effective_command_prefers_user_cmd_over_image_cmd() {
    let cfg = ImageConfig { entrypoint: None, cmd: Some(vec!["image-cmd".into()]) };
    let (exe, args) = cfg.effective_command(None, &["user-cmd"]).expect("ok");
    assert_eq!(exe, "user-cmd");
    assert_eq!(args, Vec::<String>::new());
}

#[test]
fn effective_command_errors_when_nothing_available() {
    let cfg = ImageConfig::default();
    assert!(cfg.effective_command(None, &[]).is_err());
}

#[test]
fn platform_os_and_raw_arch_uses_second_component_as_arch() {
    assert_eq!(platform_os_and_raw_arch(Some("linux/arm64/v8")), ("linux", "arm64"));
    assert_eq!(target_os_and_architecture(Some("linux/arm64/v8"), "amd64"), ("linux", "arm64"));
    assert_eq!(platform_os_and_raw_arch(Some("amd64")), ("linux", "amd64"));
    assert_eq!(platform_os_and_raw_arch(Some("linux/arm/v7")), ("linux", "arm"));
}

#[test]
fn target_architecture_normalises_aliases_and_falls_back_to_host() {
    assert_eq!(target_os_and_architecture(Some("linux/x86_64"), "arm64"), ("linux", "amd64"));
    assert_eq!(target_os_and_architecture(Some("aarch64"), "amd64"), ("linux", "arm64"));
    assert_eq!(target_os_and_architecture(Some("linux/arm/v7"), "amd64"), ("linux", "amd64"));
    assert_eq!(target_os_and_architecture(None, "arm64"), ("linux", "arm64"));
    assert_eq!(platform_os_and_raw_arch(None), ("linux", ""));
}
