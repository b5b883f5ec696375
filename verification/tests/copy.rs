use shiguredo_container::copy::{
    CopyDataSource, CopyTargetOptions, CopyToContainer, CopyToContainerError,
};

#[test]
fn copy_target_options_from_string_uses_defaults() {
    let opts: CopyTargetOptions = "/data/hello.txt".to_string().into();
    assert_eq!(opts.path, "/data/hello.txt");
    assert_eq!(opts.mode, 0o644);
    assert_eq!(opts.uid, 0);
    assert_eq!(opts.gid, 0);
}

#[test]
fn copy_target_options_from_str_uses_defaults() {
    let opts: CopyTargetOptions = "/data/hello.txt".into();
    assert_eq!(opts.path, "/data/hello.txt");
    assert_eq!(opts.mode, 0o644);
    assert_eq!(opts.uid, 0);
    assert_eq!(opts.gid, 0);
}

#[test]
fn copy_target_options_with_mode_sets_field_and_accessor() {
    let opts = CopyTargetOptions::new("/data/secret.txt").with_mode(0o600);
    assert_eq!(opts.mode, 0o600);
    assert_eq!(opts.mode(), Some(0o600));
}

#[test]
fn copy_to_container_accepts_string_target() {
    let from_string = CopyToContainer::new(
        CopyDataSource::File("/host/file.txt".into()),
        "/data/file.txt".to_string(),
    );
    assert_eq!(from_string.target.path, "/data/file.txt");
    assert_eq!(from_string.target.mode, 0o644);

    let from_str = CopyToContainer::new(CopyDataSource::File("/host/file.txt".into()), "/data/file.txt");
    assert_eq!(from_str.target.path, "/data/file.txt");
    assert_eq!(from_str.target.mode, 0o644);
}

#[test]
fn copy_data_source_from_bytes_is_data() {
    let source: CopyDataSource = vec![1u8, 2, 3].into();
    assert!(matches!(source, CopyDataSource::Data(ref b) if b == &vec![1u8, 2, 3]));
}

#[test]
fn copy_to_container_error_messages() {
    let err = CopyToContainerError::PathNameError("bad".to_string());
    assert_eq!(err.to_string(), "source is not a regular file: bad");
    let err = CopyToContainerError::SizeLimitExceeded { limit: 10, name: "a.bin".to_string() };
    assert_eq!(err.to_string(), "tar archive exceeds 10 bytes limit while adding a.bin");
}
