use shiguredo_container::docker_ops::{
    archive_path, check_copy_from_status, check_copy_to_status, check_pause_status,
    check_pull_status, check_remove_status, check_stop_status, check_unpause_status,
    create_container_path, image_lookup_after_pull, image_lookup_step, logs_path,
    parse_container_id, parse_wait_status_code, pull_image_path, pull_receive_error, remove_path,
    stop_path, ImageLookup,
};
use shiguredo_container::error::{ClientError, Error};

fn other_message(r: Error) -> String {
    match r {
        Error::Client(ClientError::Other(m)) => m,
        e => panic!("unexpected error: {e:?}"),
    }
}

#[test]
fn stop_path_grace_defaults_to_thirty() {
    assert_eq!(stop_path("abc", None), "/containers/abc/stop?t=30");
    assert_eq!(stop_path("abc", Some(-1)), "/containers/abc/stop?t=30");
    assert_eq!(stop_path("abc", Some(0)), "/containers/abc/stop?t=0");
    assert_eq!(stop_path("a/b", Some(15)), "/containers/a%2Fb/stop?t=15");
}

#[test]
fn remove_path_carries_force() {
    assert_eq!(remove_path("abc", true), "/containers/abc?force=true");
    assert_eq!(remove_path("abc", false), "/containers/abc?force=false");
}

#[test]
fn create_container_path_query() {
    assert_eq!(create_container_path(None, None), "/containers/create");
    assert_eq!(create_container_path(Some("web"), None), "/containers/create?name=web");
    assert_eq!(
        create_container_path(None, Some("linux/amd64")),
        "/containers/create?platform=linux%2Famd64"
    );
    assert_eq!(
        create_container_path(Some("a b"), Some("linux/arm64")),
        "/containers/create?name=a%20b&platform=linux%2Farm64"
    );
}

#[test]
fn pull_image_path_splits_the_reference() {
    assert_eq!(
        pull_image_path("nginx:1.25", None),
        "/images/create?fromImage=nginx&tag=1.25"
    );
    assert_eq!(
        pull_image_path("ghcr.io/org/app:tag", Some("linux/amd64")),
        "/images/create?fromImage=ghcr.io%2Forg%2Fapp&tag=tag&platform=linux%2Famd64"
    );
}

#[test]
fn stop_and_remove_tolerate_a_missing_container() {
    assert!(check_stop_status(204).is_ok());
    assert!(check_stop_status(304).is_ok());
    assert!(check_stop_status(404).is_ok());
    assert_eq!(other_message(check_stop_status(500).unwrap_err()), "failed to stop container: 500");
    assert!(check_remove_status(404).is_ok());
    assert_eq!(
        other_message(check_remove_status(409).unwrap_err()),
        "failed to remove container: 409"
    );
}

#[test]
fn pause_and_unpause_tolerate_no_change() {
    assert!(check_pause_status(304).is_ok());
    assert!(check_pause_status(404).is_ok());
    assert_eq!(
        other_message(check_pause_status(409).unwrap_err()),
        "failed to pause container: 409"
    );
    assert!(check_unpause_status(304).is_ok());
    assert_eq!(
        other_message(check_unpause_status(500).unwrap_err()),
        "failed to unpause container: 500"
    );
}

#[test]
fn image_lookup_steps() {
    assert_eq!(image_lookup_step("img:1", 200).unwrap(), ImageLookup::Present);
    assert_eq!(image_lookup_step("img:1", 404).unwrap(), ImageLookup::Pull);
    assert_eq!(
        other_message(image_lookup_step("img:1", 500).unwrap_err()),
        "failed to resolve image img:1: 500"
    );
    assert_eq!(image_lookup_after_pull("img:1", 200).unwrap(), "img:1");
    match image_lookup_after_pull("img:1", 404) {
        Err(Error::Client(ClientError::ImageNotFound(d))) => assert_eq!(d, "img:1"),
        r => panic!("unexpected: {r:?}"),
    }
}

#[test]
fn pull_status_and_receive_error() {
    assert!(check_pull_status("img:1", 200).is_ok());
    assert_eq!(
        other_message(check_pull_status("img:1", 404).unwrap_err()),
        "failed to pull image img:1: 404"
    );
    let e = pull_receive_error("img:1", &Error::Other("limit".to_string()));
    assert_eq!(
        other_message(e),
        "failed to receive pull progress for image img:1: other error: limit"
    );
}

#[test]
fn container_id_from_creation_response() {
    assert_eq!(parse_container_id(Some(br#"{"Id":"abc","Warnings":[]}"#)).unwrap(), "abc");
    assert_eq!(other_message(parse_container_id(None).unwrap_err()), "empty response body");
    assert!(matches!(
        parse_container_id(Some(br#"{"Warnings":[]}"#)),
        Err(Error::Client(ClientError::Json(_)))
    ));
}

#[test]
fn wait_status_code() {
    assert_eq!(parse_wait_status_code(Some(br#"{"StatusCode":3}"#)).unwrap(), 3);
    assert_eq!(parse_wait_status_code(Some(br#"{"StatusCode":-1,"Error":null}"#)).unwrap(), -1);
    assert_eq!(
        other_message(parse_wait_status_code(None).unwrap_err()),
        "empty wait response body"
    );
    match parse_wait_status_code(Some(br#"{}"#)) {
        Err(Error::Client(ClientError::Json(m))) => assert!(m.contains("StatusCode"), "{m}"),
        r => panic!("unexpected: {r:?}"),
    }
    assert!(matches!(
        parse_wait_status_code(Some(br#"{"StatusCode":"x"}"#)),
        Err(Error::Client(ClientError::Json(_)))
    ));
    assert!(matches!(
        parse_wait_status_code(Some(b"\xff")),
        Err(Error::Client(ClientError::Json(_)))
    ));
}

#[test]
fn archive_and_logs_paths() {
    assert_eq!(
        archive_path("abc", "/tmp/x", false),
        "/containers/abc/archive?path=%2Ftmp%2Fx"
    );
    assert_eq!(
        archive_path("abc", "/tmp", true),
        "/containers/abc/archive?path=%2Ftmp&copyUIDGID=true"
    );
    assert_eq!(
        logs_path("abc", true),
        "/containers/abc/logs?stdout=1&stderr=1&follow=true&tail=all"
    );
    assert_eq!(
        logs_path("abc", false),
        "/containers/abc/logs?stdout=1&stderr=1&follow=false&tail=all"
    );
}

#[test]
fn copy_statuses() {
    assert!(check_copy_to_status("abc", 200).is_ok());
    match check_copy_to_status("abc", 404) {
        Err(Error::Client(ClientError::ContainerNotFound(id))) => assert_eq!(id, "abc"),
        r => panic!("unexpected: {r:?}"),
    }
    assert_eq!(
        other_message(check_copy_to_status("abc", 500).unwrap_err()),
        "failed to copy to container: 500"
    );
    assert!(check_copy_from_status("abc", "/x", 200, b"").is_ok());
    let body = br#"{"message":"Could not find the file /x in container abc"}"#;
    match check_copy_from_status("abc", "/x", 404, body) {
        Err(Error::Client(ClientError::ContainerPathNotFound(p))) => assert_eq!(p, "/x"),
        r => panic!("unexpected: {r:?}"),
    }
    match check_copy_from_status("abc", "/x", 404, br#"{"message":"No such container: abc"}"#) {
        Err(Error::Client(ClientError::ContainerNotFound(id))) => assert_eq!(id, "abc"),
        r => panic!("unexpected: {r:?}"),
    }
    assert_eq!(
        other_message(check_copy_from_status("abc", "/x", 500, b"").unwrap_err()),
        "failed to copy from container: 500"
    );
}
