use std::time::Duration;

use shiguredo_container::error::{ClientError, Error};
use shiguredo_container::xpc::{
    describe_missing, host_path_for_xpc, is_not_found_error, is_valid_volume_name,
    is_volume_already_exists_error, normalize_image_reference, normalize_platform,
    oci_platform_json, xpc_timeout_for_grace, XPC_DEFAULT_TIMEOUT_SECS, XPC_LONG_TIMEOUT_SECS,
};

#[test]
fn normalize_tag_with_dot_still_gets_library_prefix() {
    assert_eq!(normalize_image_reference("alpine:3.19"), "docker.io/library/alpine:3.19");
}

#[test]
fn normalize_image_reference_is_idempotent_for_samples() {
    for image in [
        "alpine:latest",
        "user/repo:1",
        "ghcr.io/org/app:tag",
        "localhost/foo",
        "registry.example.com:5000/ns/name:v1",
    ] {
        let once = normalize_image_reference(image);
        let twice = normalize_image_reference(&once);
        assert_eq!(once, twice, "{image}");
    }
}

#[test]
fn normalize_unqualified_gets_library_prefix() {
    let normalized = normalize_image_reference("nginx:1.25");
    assert!(normalized.starts_with("docker.io/library/"), "{normalized}");
    assert!(normalized.ends_with("nginx:1.25"), "{normalized}");
}

#[test]
fn normalize_user_repository_gets_hub_prefix() {
    assert_eq!(normalize_image_reference("user/repo:1"), "docker.io/user/repo:1");
    assert_eq!(normalize_image_reference("localhost/foo"), "localhost/foo");
}

#[test]
fn xpc_timeout_for_grace_keeps_default_for_short_grace() {
    let default = Duration::from_secs(XPC_DEFAULT_TIMEOUT_SECS);
    assert_eq!(xpc_timeout_for_grace(0), default);
    assert_eq!(xpc_timeout_for_grace(30), default);
}

#[test]
fn xpc_timeout_for_grace_extends_over_default() {
    assert_eq!(xpc_timeout_for_grace(61), Duration::from_secs(61 + 30));
    assert_eq!(xpc_timeout_for_grace(120), Duration::from_secs(120 + 30));
}

#[test]
fn xpc_timeout_for_grace_saturates_at_long_timeout() {
    let long = Duration::from_secs(XPC_LONG_TIMEOUT_SECS);
    assert_eq!(xpc_timeout_for_grace(i32::MAX as u64), long);
    assert_eq!(xpc_timeout_for_grace(long.as_secs() - 20), long);
    assert_eq!(xpc_timeout_for_grace(long.as_secs() - 30), long);
    assert_eq!(
        xpc_timeout_for_grace(long.as_secs() - 31),
        Duration::from_secs(long.as_secs() - 1)
    );
}

#[test]
fn xpc_timeout_for_grace_never_overflows() {
    assert_eq!(xpc_timeout_for_grace(u64::MAX), Duration::from_secs(XPC_LONG_TIMEOUT_SECS));
}

#[test]
fn is_valid_volume_name_accepts_allowed_chars() {
    for name in ["data", "Data-1", "a_b.c-d", "0", "a".repeat(255).as_str()] {
        assert!(is_valid_volume_name(name), "{name}");
    }
}

#[test]
fn is_valid_volume_name_rejects_invalid_names() {
    for name in ["", "-data", ".data", "_data", "da ta", "a/b", "a#b", "a".repeat(256).as_str()] {
        assert!(!is_valid_volume_name(name), "{name}");
    }
}

#[test]
fn is_volume_already_exists_error_matches_existing_volume_message() {
    let err = Error::Client(ClientError::Xpc(
        "XPC error internalError: volume 'data' already exists".into(),
    ));
    assert!(is_volume_already_exists_error(&err));
}

#[test]
fn is_volume_already_exists_error_rejects_other_errors() {
    let xpc_err = Error::Client(ClientError::Xpc("XPC error internalError: storage error".into()));
    assert!(!is_volume_already_exists_error(&xpc_err));
    let other_err = Error::Client(ClientError::ContainerNotFound("id".into()));
    assert!(!is_volume_already_exists_error(&other_err));
}

#[test]
fn not_found_errors_are_recognised() {
    assert!(is_not_found_error(&Error::Client(ClientError::ContainerNotFound("id".into()))));
    assert!(is_not_found_error(&Error::Client(ClientError::Xpc(
        "XPC error notFound: no such container".into()
    ))));
    assert!(!is_not_found_error(&Error::Client(ClientError::Xpc(
        "XPC error internalError: notFound".into()
    ))));
}

#[test]
fn oci_platform_json_contains_os_and_architecture() {
    let amd64 = String::from_utf8(oci_platform_json("amd64")).expect("UTF-8");
    assert_eq!(amd64, r#"{"os":"linux","architecture":"amd64"}"#);
    let arm64 = String::from_utf8(oci_platform_json("arm64")).expect("UTF-8");
    assert_eq!(arm64, r#"{"os":"linux","architecture":"arm64"}"#);
}

#[test]
fn host_path_for_xpc_accepts_utf8() {
    let s = host_path_for_xpc(std::path::Path::new("/tmp/hello")).expect("ok");
    assert_eq!(s, "/tmp/hello");
}

#[test]
fn describe_missing_names_streams() {
    assert_eq!(describe_missing(false, false), "stdout/stderr");
    assert_eq!(describe_missing(false, true), "stdout");
    assert_eq!(describe_missing(true, false), "stderr");
}

#[test]
fn normalize_platform_maps_allowed_values() {
    assert_eq!(normalize_platform(Some("linux/amd64")), ("amd64", true, Some("linux/amd64")));
    assert_eq!(normalize_platform(Some("amd64")), ("amd64", true, Some("linux/amd64")));
    assert_eq!(normalize_platform(Some("linux/arm64")), ("arm64", false, Some("linux/arm64")));
    assert_eq!(normalize_platform(Some("arm64")), ("arm64", false, Some("linux/arm64")));
    assert_eq!(normalize_platform(None), ("arm64", false, None));
    assert_eq!(normalize_platform(Some("linux/ppc64le")), ("arm64", false, None));
    assert_eq!(normalize_platform(Some("x86_64")), ("arm64", false, None));
}
