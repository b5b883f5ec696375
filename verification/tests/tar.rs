use shiguredo_container::copy::{CopyFromContainerError, CopyToContainerError};
use shiguredo_container::docker_api::DOCKER_RESPONSE_BODY_LIMIT;
use shiguredo_container::tar::{
    build_single_file_ustar, parse_chksum, parse_first_regular_file_from_ustar, split_ustar_path,
    write_chksum, UstarBuilder, CHKSUM_LEN, CHKSUM_OFF, GID_OFF, MAGIC_OFF, MODE_OFF, MTIME_OFF,
    NAME_LEN, NAME_MAX, NAME_OFF, OCTAL_7DIGIT_MAX, PREFIX_LEN, PREFIX_OFF, SIZE_LEN, SIZE_OFF,
    TYPEFLAG_DIRECTORY, TYPEFLAG_OFF, TYPEFLAG_REGULAR, UID_OFF, VERSION_OFF,
};

/// The field at `off` up to its first NUL.
fn field_str(header: &[u8], off: usize, len: usize) -> &[u8] {
    let f = &header[off..off + len];
    let end = f.iter().position(|&b| b == 0).unwrap_or(len);
    &f[..end]
}

/// Rewrites the type flag and recomputes the checksum.
fn set_typeflag(tar: &mut Vec<u8>, flag: u8) {
    tar[TYPEFLAG_OFF] = flag;
    recompute_checksum(tar);
}

fn recompute_checksum(tar: &mut Vec<u8>) {
    tar[CHKSUM_OFF..CHKSUM_OFF + CHKSUM_LEN].copy_from_slice(&[0x20; CHKSUM_LEN]);
    let sum: u32 = tar[..512].iter().map(|&b| b as u32).sum();
    let mut header = tar[..512].to_vec();
    write_chksum(&mut header, sum);
    tar[..512].copy_from_slice(&header);
}

#[test]
fn build_matches_known_field_layout() {
    let tar = build_single_file_ustar("hello.txt", b"world", 0o644, 1000, 1000).expect("build");
    assert_eq!(tar.len(), 512 + 512 + 1024);
    let header = &tar[..512];
    assert_eq!(field_str(header, NAME_OFF, NAME_LEN), b"hello.txt");
    assert_eq!(field_str(header, MODE_OFF, 8), b"0000644");
    assert_eq!(field_str(header, UID_OFF, 8), b"0001750");
    assert_eq!(field_str(header, GID_OFF, 8), b"0001750");
    assert_eq!(field_str(header, SIZE_OFF, SIZE_LEN), b"00000000005");
    assert_eq!(field_str(header, MTIME_OFF, SIZE_LEN), b"00000000000");
    assert_eq!(header[TYPEFLAG_OFF], b'0');
    assert_eq!(&header[MAGIC_OFF..MAGIC_OFF + 6], b"ustar\0");
    assert_eq!(&header[VERSION_OFF..VERSION_OFF + 2], b"00");
    let stored = parse_chksum(&header[CHKSUM_OFF..CHKSUM_OFF + CHKSUM_LEN]).expect("chksum");
    let mut sum_header = [0u8; 512];
    sum_header.copy_from_slice(header);
    sum_header[CHKSUM_OFF..CHKSUM_OFF + CHKSUM_LEN].copy_from_slice(&[0x20; 8]);
    let computed: u32 = sum_header.iter().map(|&b| b as u32).sum();
    assert_eq!(stored, computed);
    assert_eq!(&tar[512..517], b"world");
}

#[test]
fn round_trip_simple() {
    let tar = build_single_file_ustar("a.bin", b"\x00\x01\x02binary", 0o600, 0, 0).expect("build");
    let parsed = parse_first_regular_file_from_ustar(&tar).expect("parse");
    assert_eq!(parsed, b"\x00\x01\x02binary");
}

#[test]
fn parse_rejects_corrupted_checksum() {
    let mut tar = build_single_file_ustar("a", b"data", 0o644, 0, 0).expect("build");
    tar[CHKSUM_OFF] ^= 0xFF;
    let err = parse_first_regular_file_from_ustar(&tar).expect_err("corrupt checksum fails");
    assert!(matches!(err, CopyFromContainerError::Io(_)));
}

#[test]
fn parse_empty_archive_is_empty_archive_error() {
    let empty = vec![0u8; 1024];
    let err = parse_first_regular_file_from_ustar(&empty).expect_err("empty archive fails");
    assert!(matches!(err, CopyFromContainerError::EmptyArchive));
}

#[test]
fn parse_directory_entry_is_is_directory() {
    let mut builder = UstarBuilder::new();
    builder.append_directory("dir/", 0o755, 0, 0).expect("directory");
    let tar = builder.finish().expect("finish");
    let err = parse_first_regular_file_from_ustar(&tar).expect_err("directory fails");
    assert!(matches!(err, CopyFromContainerError::IsDirectory));
}

#[test]
fn parse_gzip_is_unsupported() {
    let gzip = vec![0x1f, 0x8b, 0x08, 0x00];
    let err = parse_first_regular_file_from_ustar(&gzip).expect_err("gzip fails");
    assert!(matches!(err, CopyFromContainerError::UnsupportedEntry("gzip")));
}

#[test]
fn build_rejects_invalid_name() {
    assert!(build_single_file_ustar("", b"x", 0o644, 0, 0).is_err());
    assert!(build_single_file_ustar("a\0b", b"x", 0o644, 0, 0).is_err());
    let long = "a".repeat(100);
    assert!(build_single_file_ustar(&long, b"x", 0o644, 0, 0).is_err());
}

#[test]
fn build_rejects_uid_gid_overflow() {
    let over = (OCTAL_7DIGIT_MAX + 1) as u32;
    assert!(build_single_file_ustar("a", b"x", 0o644, over, 0).is_err());
    assert!(build_single_file_ustar("a", b"x", 0o644, 0, over).is_err());
    let max = OCTAL_7DIGIT_MAX as u32;
    assert!(build_single_file_ustar("a", b"x", 0o644, max, max).is_ok());
}

#[test]
fn parse_special_typeflags_are_unsupported() {
    for (flag, expected) in [
        (b'1', "hardlink"),
        (b'2', "symlink"),
        (b'3', "char device"),
        (b'4', "block device"),
        (b'6', "fifo"),
    ] {
        let mut tar = build_single_file_ustar("f", b"x", 0o644, 0, 0).expect("build");
        set_typeflag(&mut tar, flag);
        let err = parse_first_regular_file_from_ustar(&tar).expect_err("special flag fails");
        assert!(
            matches!(err, CopyFromContainerError::UnsupportedEntry(name) if name == expected),
            "typeflag {flag}"
        );
    }
}

#[test]
fn parse_truncated_header_is_error() {
    let short = vec![0u8; 100];
    let err = parse_first_regular_file_from_ustar(&short).expect_err("short input fails");
    assert!(matches!(err, CopyFromContainerError::Io(_)));
}

#[test]
fn parse_truncated_data_is_error() {
    let mut tar = build_single_file_ustar("f", b"0123456789", 0o644, 0, 0).expect("build");
    tar.truncate(512 + 4);
    let err = parse_first_regular_file_from_ustar(&tar).expect_err("truncated data fails");
    assert!(matches!(err, CopyFromContainerError::Io(_)));
}

#[test]
fn parse_invalid_octal_field_is_error() {
    let mut tar = build_single_file_ustar("f", b"x", 0o644, 0, 0).expect("build");
    tar[SIZE_OFF] = b'9';
    recompute_checksum(&mut tar);
    let err = parse_first_regular_file_from_ustar(&tar).expect_err("invalid octal fails");
    assert!(matches!(err, CopyFromContainerError::Io(_)));
}

#[test]
fn builder_directory_and_file_layout() {
    let mut builder = UstarBuilder::new();
    builder.append_directory("var/", 0o755, 1000, 1000).expect("directory");
    builder.append_file("var/a.txt", b"hi", 0o644, 1000, 1000).expect("file");
    let tar = builder.finish().expect("finish");
    assert_eq!(tar.len(), 512 + 512 + 512 + 1024);
    assert_eq!(tar[TYPEFLAG_OFF], TYPEFLAG_DIRECTORY);
    assert_eq!(field_str(&tar[..512], NAME_OFF, NAME_LEN), b"var/");
    assert_eq!(field_str(&tar[..512], SIZE_OFF, SIZE_LEN), b"00000000000");
    let file_header = &tar[512..1024];
    assert_eq!(file_header[TYPEFLAG_OFF], TYPEFLAG_REGULAR);
    assert_eq!(field_str(file_header, NAME_OFF, NAME_LEN), b"var/a.txt");
    assert_eq!(&tar[1024..1026], b"hi");
    assert!(tar[tar.len() - 1024..].iter().all(|&b| b == 0));
}

#[test]
fn split_prefers_longest_name() {
    let prefix_part = "p".repeat(20);
    let name_part = "n".repeat(90);
    let path = format!("{prefix_part}/{name_part}");
    assert!(path.len() > NAME_MAX);
    let (name, prefix) = split_ustar_path(&path).expect("splits");
    assert_eq!(name, name_part);
    assert_eq!(prefix, prefix_part);
    assert!(name.len() <= NAME_MAX);
    assert!(prefix.len() <= PREFIX_LEN);
}

#[test]
fn split_directory_keeps_trailing_slash_in_name() {
    let prefix_part = "d".repeat(50);
    let mid = "m".repeat(50);
    let path = format!("{prefix_part}/{mid}/");
    assert!(path.len() > NAME_MAX);
    let (name, prefix) = split_ustar_path(&path).expect("splits");
    assert!(name.ends_with('/'), "name keeps the slash: {name}");
    assert!(!prefix.ends_with('/'), "prefix has no trailing slash: {prefix}");
    assert_eq!(format!("{prefix}/{name}"), path);
}

#[test]
fn builder_rejects_directory_without_slash() {
    let mut builder = UstarBuilder::new();
    let err = builder.append_directory("var", 0o755, 0, 0).expect_err("no slash fails");
    assert!(matches!(err, CopyToContainerError::PathNameError(_)));
}

#[test]
fn builder_uses_prefix_for_long_path() {
    let prefix_part = "a".repeat(40);
    let name_part = "b".repeat(80);
    let path = format!("{prefix_part}/{name_part}");
    let mut builder = UstarBuilder::new();
    builder.append_file(&path, b"x", 0o644, 0, 0).expect("long path");
    let tar = builder.finish().expect("finish");
    let header = &tar[..512];
    assert_eq!(field_str(header, NAME_OFF, NAME_LEN), name_part.as_bytes());
    assert_eq!(field_str(header, PREFIX_OFF, PREFIX_LEN), prefix_part.as_bytes());
}

#[test]
fn builder_rejects_accumulated_size_over_limit() {
    let mut builder = UstarBuilder::new();
    let data = vec![0u8; DOCKER_RESPONSE_BODY_LIMIT];
    let err = builder.append_file("big.bin", &data, 0o644, 0, 0).expect_err("over the limit");
    assert!(
        matches!(err, CopyToContainerError::SizeLimitExceeded { limit, ref name }
            if limit == DOCKER_RESPONSE_BODY_LIMIT && name == "big.bin")
    );
}

#[test]
fn builder_trailer_can_trip_limit() {
    let mut builder = UstarBuilder::new();
    let data_len = DOCKER_RESPONSE_BODY_LIMIT - 1024;
    assert_eq!(data_len % 512, 0);
    let data = vec![0u8; data_len];
    builder.append_directory("tmp/", 0o755, 0, 0).expect("directory");
    builder.append_file("tmp/big.bin", &data, 0o644, 0, 0).expect("exactly at the limit");
    let err = builder.finish().expect_err("the trailer goes over");
    assert!(matches!(err, CopyToContainerError::SizeLimitExceeded { .. }));
}

#[test]
fn round_trip_keeps_data_for_assorted_inputs() {
    for (name, len, mode, uid, gid) in [
        ("x", 0usize, 0u32, 0u32, 0u32),
        ("data.bin", 511, 0o755, 1, 2),
        ("Z-9_.", 512, 0o7777, 0o7777777, 0o7777777),
        ("dir/inner/file.txt", 1025, 0o644, 1000, 1000),
    ] {
        let data: Vec<u8> = (0..len).map(|i| (i % 251) as u8).collect();
        let tar = build_single_file_ustar(name, &data, mode, uid, gid).expect("build");
        assert_eq!(tar.len() % 512, 0);
        let parsed = parse_first_regular_file_from_ustar(&tar).expect("parse");
        assert_eq!(parsed, data, "{name}");
    }
}

#[test]
fn split_refuses_path_without_usable_slash() {
    let path = format!("{}/{}", "p".repeat(156), "n".repeat(10));
    assert!(matches!(
        split_ustar_path(&path),
        Err(CopyToContainerError::PathNameError(_))
    ));
    let (name, prefix) = split_ustar_path("short/name").expect("short paths stay whole");
    assert_eq!(name, "short/name");
    assert_eq!(prefix, "");
}
