use std::time::Duration;

use shiguredo_container::duration::duration_to_nanos_i64;
use shiguredo_container::healthcheck::Healthcheck;

#[test]
fn constructors_set_expected_test_arrays() {
    assert_eq!(Healthcheck::none().test(), &["NONE".to_string()]);
    assert!(Healthcheck::empty().test().is_empty());
    assert_eq!(
        Healthcheck::cmd_shell("true").test(),
        &["CMD-SHELL".to_string(), "true".to_string()]
    );
    assert_eq!(
        Healthcheck::cmd(["echo", "ok"]).test(),
        &["CMD".to_string(), "echo".to_string(), "ok".to_string()]
    );
}

#[test]
fn builders_are_readable_via_accessors() {
    let hc = Healthcheck::empty()
        .with_interval(Duration::from_secs(1))
        .with_timeout(Duration::from_secs(2))
        .with_retries(3)
        .with_start_period(Duration::from_secs(4))
        .with_start_interval(Duration::from_secs(5));
    assert_eq!(hc.interval(), Some(Duration::from_secs(1)));
    assert_eq!(hc.timeout(), Some(Duration::from_secs(2)));
    assert_eq!(hc.retries(), Some(3));
    assert_eq!(hc.start_period(), Some(Duration::from_secs(4)));
    assert_eq!(hc.start_interval(), Some(Duration::from_secs(5)));
}

#[test]
fn to_docker_json_emits_test_variants() {
    let shell = Healthcheck::cmd_shell("true").to_docker_json().unwrap();
    assert_eq!(shell, r#"{"Test":["CMD-SHELL","true"]}"#);
    let cmd = Healthcheck::cmd(["echo", "ok"]).to_docker_json().unwrap();
    assert_eq!(cmd, r#"{"Test":["CMD","echo","ok"]}"#);
    let none = Healthcheck::none().to_docker_json().unwrap();
    assert_eq!(none, r#"{"Test":["NONE"]}"#);
    let empty_with_interval = Healthcheck::empty()
        .with_interval(Duration::from_secs(5))
        .to_docker_json()
        .unwrap();
    assert_eq!(empty_with_interval, r#"{"Test":[],"Interval":5000000000}"#);
}

#[test]
fn to_docker_json_duration_and_omission() {
    let hc = Healthcheck::cmd_shell("true")
        .with_interval(Duration::from_secs(30))
        .with_timeout(Duration::ZERO);
    let json = hc.to_docker_json().unwrap();
    assert!(json.contains(r#""Interval":30000000000"#), "{json}");
    assert!(json.contains(r#""Timeout":0"#), "{json}");
    assert!(!json.contains("Retries"), "{json}");
    assert!(!json.contains("StartPeriod"), "{json}");
}

#[test]
fn to_docker_json_escapes_test_elements() {
    let hc = Healthcheck::cmd_shell("a\"b\\c\nd");
    let json = hc.to_docker_json().unwrap();
    assert_eq!(json, r#"{"Test":["CMD-SHELL","a\"b\\c\nd"]}"#);
    let multibyte = Healthcheck::cmd_shell("日本語").to_docker_json().unwrap();
    assert_eq!(multibyte, r#"{"Test":["CMD-SHELL","日本語"]}"#);
}

#[test]
fn to_docker_json_returns_none_for_empty_default() {
    assert!(Healthcheck::empty().to_docker_json().is_none());
}

#[test]
fn to_docker_json_writes_every_field_in_order() {
    let hc = Healthcheck::cmd(["true"])
        .with_interval(Duration::from_millis(1500))
        .with_timeout(Duration::from_secs(3))
        .with_retries(4)
        .with_start_period(Duration::from_nanos(7))
        .with_start_interval(Duration::from_secs(u64::MAX));
    assert_eq!(
        hc.to_docker_json().unwrap(),
        r#"{"Test":["CMD","true"],"Interval":1500000000,"Timeout":3000000000,"Retries":4,"StartPeriod":7,"StartInterval":9223372036854775807}"#
    );
}

#[test]
fn duration_nanos_saturate_at_i64_max() {
    assert_eq!(duration_to_nanos_i64(Duration::from_secs(2)), 2_000_000_000);
    assert_eq!(duration_to_nanos_i64(Duration::new(1, 5)), 1_000_000_005);
    assert_eq!(duration_to_nanos_i64(Duration::from_secs(u64::MAX)), i64::MAX);
}
