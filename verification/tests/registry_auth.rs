use base64ct::{Base64, Encoding};
use shiguredo_container::registry_auth::{auths_key, extract_auth_entry, x_registry_auth};

#[test]
fn auths_key_docker_hub_for_plain_image() {
    assert_eq!(auths_key("alpine:latest"), "https://index.docker.io/v1/");
    assert_eq!(auths_key("library/nginx"), "https://index.docker.io/v1/");
}

#[test]
fn auths_key_docker_hub_normalizes_docker_io_references() {
    assert_eq!(auths_key("docker.io/org/private"), "https://index.docker.io/v1/");
    assert_eq!(auths_key("index.docker.io/org/private"), "https://index.docker.io/v1/");
    assert_eq!(auths_key("docker.io/library/nginx:latest"), "https://index.docker.io/v1/");
}

#[test]
fn auths_key_private_registry() {
    assert_eq!(auths_key("ghcr.io/org/app:tag"), "ghcr.io");
    assert_eq!(auths_key("localhost:5000/myimage"), "localhost:5000");
    assert_eq!(auths_key("registry.example.com/img"), "registry.example.com");
}

#[test]
fn auths_key_does_not_normalize_docker_hub_subdomains() {
    assert_eq!(auths_key("registry-1.docker.io/org/img"), "registry-1.docker.io");
    assert_eq!(auths_key("docker.io:5000/img"), "docker.io:5000");
}

#[test]
fn extract_auth_entry_decodes_base64_auth() {
    let credentials = Base64::encode_string(b"user:pass");
    let config =
        format!(r#"{{"auths":{{"https://index.docker.io/v1/":{{"auth":"{credentials}"}}}}}}"#);
    let result = extract_auth_entry(&config, "https://index.docker.io/v1/");
    assert!(result.is_some());
    let decoded = Base64::decode_vec(&result.expect("an entry")).expect("decodes");
    let json_str = String::from_utf8(decoded).expect("UTF-8");
    assert!(json_str.contains("\"username\":\"user\""), "{json_str}");
    assert!(json_str.contains("\"password\":\"pass\""), "{json_str}");
}

#[test]
fn extract_auth_entry_returns_none_for_missing_key() {
    let config = r#"{"auths":{"ghcr.io":{"auth":"dXNlcjpwYXNz"}}}"#;
    assert!(extract_auth_entry(config, "https://index.docker.io/v1/").is_none());
}

#[test]
fn extract_auth_entry_returns_none_for_empty_auths() {
    let config = r#"{"auths":{}}"#;
    assert!(extract_auth_entry(config, "https://index.docker.io/v1/").is_none());
}

fn member(json: &str, name: &str) -> String {
    let parsed = nojson::RawJson::parse(json).expect("valid header JSON");
    parsed
        .value()
        .to_member(name)
        .and_then(|m| m.required())
        .ok()
        .and_then(|v| TryInto::<String>::try_into(v).ok())
        .expect("member present")
}

#[test]
fn extract_auth_entry_with_control_chars_in_credentials() {
    let credentials = Base64::encode_string("user\nline:pa\tss\u{0001}".as_bytes());
    let config =
        format!(r#"{{"auths":{{"https://index.docker.io/v1/":{{"auth":"{credentials}"}}}}}}"#);
    let result = extract_auth_entry(&config, "https://index.docker.io/v1/").expect("an entry");
    let decoded = Base64::decode_vec(&result).expect("decodes");
    let text = std::str::from_utf8(&decoded).expect("UTF-8");
    assert_eq!(member(text, "username"), "user\nline");
    assert_eq!(member(text, "password"), "pa\tss\u{0001}");
}

#[test]
fn extract_auth_entry_with_control_chars_in_identitytoken() {
    let config = r#"{"auths":{"https://index.docker.io/v1/":{"identitytoken":"tok\nen\u0001"}}}"#;
    let result = extract_auth_entry(config, "https://index.docker.io/v1/").expect("a token");
    let decoded = Base64::decode_vec(&result).expect("decodes");
    let text = std::str::from_utf8(&decoded).expect("UTF-8");
    assert_eq!(member(text, "identitytoken"), "tok\nen\u{0001}");
}

#[test]
fn x_registry_auth_picks_docker_hub_entry_for_docker_io_reference() {
    let credentials = Base64::encode_string(b"user:pass");
    let config =
        format!(r#"{{"auths":{{"https://index.docker.io/v1/":{{"auth":"{credentials}"}}}}}}"#);
    let result = x_registry_auth(Some(&config), "docker.io/org/private").expect("an entry");
    let decoded = Base64::decode_vec(&result).expect("decodes");
    let json_str = String::from_utf8(decoded).expect("UTF-8");
    assert_eq!(
        json_str,
        r#"{"username":"user","password":"pass","serveraddress":"https://index.docker.io/v1/"}"#
    );
    assert!(x_registry_auth(None, "docker.io/org/private").is_none());
}

#[test]
fn extract_auth_entry_refuses_unusable_entries() {
    let empty_auth = r#"{"auths":{"k":{"auth":""}}}"#;
    assert!(extract_auth_entry(empty_auth, "k").is_none());
    let no_colon = format!(r#"{{"auths":{{"k":{{"auth":"{}"}}}}}}"#, Base64::encode_string(b"user"));
    assert!(extract_auth_entry(&no_colon, "k").is_none());
    let not_base64 = r#"{"auths":{"k":{"auth":"***"}}}"#;
    assert!(extract_auth_entry(not_base64, "k").is_none());
    let empty_token = format!(
        r#"{{"auths":{{"k":{{"identitytoken":"","auth":"{}"}}}}}}"#,
        Base64::encode_string(b"a:b")
    );
    let header = extract_auth_entry(&empty_token, "k").expect("falls back to auth");
    let decoded = String::from_utf8(Base64::decode_vec(&header).unwrap()).unwrap();
    assert_eq!(decoded, r#"{"username":"a","password":"b","serveraddress":"k"}"#);
}
