use orbit::runtime::process_invocation;
use orbit::stdlib::env::{assignment, removal};
use orbit::stdlib::errno::text_of;
use orbit::stdlib::metadata::{metadata_from, modified_time, permissions, size, FileMetadata, ModifiedTime};
use orbit::stdlib::path::{extension, is_utf8, join, normalize};

const EINVAL: i32 = 22;

#[test]
fn text_of_accepts_utf8_only() {
    assert_eq!(text_of("grüße".as_bytes()), Ok("grüße".to_string()));
    assert_eq!(text_of(&[0xff, 0xfe]), Err(EINVAL));
    assert_eq!(text_of(b""), Ok(String::new()));
}

#[test]
fn assignment_checks_name_and_value() {
    assert_eq!(assignment(b"HOME", b"/root"), Ok(("HOME".to_string(), "/root".to_string())));
    assert_eq!(assignment(b"EMPTY", b""), Ok(("EMPTY".to_string(), String::new())));
    assert_eq!(assignment(b"", b"x"), Err(EINVAL));
    assert_eq!(assignment(&[0xc3], b"x"), Err(EINVAL));
    assert_eq!(assignment(b"K", &[0x80]), Err(EINVAL));
}

#[test]
fn removal_checks_name() {
    assert_eq!(removal(b"PATH"), Ok("PATH".to_string()));
    assert_eq!(removal(b""), Err(EINVAL));
    assert_eq!(removal(&[0xff]), Err(EINVAL));
}

#[test]
fn metadata_from_reads_the_modification_time() {
    assert_eq!(
        metadata_from(5, 0o100644, ModifiedTime::AfterEpoch(1_700_000_000)),
        Ok(FileMetadata { size: 5, permissions: 0o100644, modified_unix: 1_700_000_000 })
    );
    assert_eq!(metadata_from(5, 0o644, ModifiedTime::BeforeEpoch), Err(EINVAL));
    assert_eq!(metadata_from(5, 0o644, ModifiedTime::Unavailable(38)), Err(38));
    assert_eq!(
        metadata_from(0, 0, ModifiedTime::AfterEpoch(u64::MAX)),
        Ok(FileMetadata { size: 0, permissions: 0, modified_unix: -1 })
    );
}

#[test]
fn metadata_fields_pass_errors_through() {
    let m = FileMetadata { size: 5, permissions: 0o755, modified_unix: 42 };
    assert_eq!(size(Ok(m.clone())), Ok(5));
    assert_eq!(permissions(Ok(m.clone())), Ok(0o755));
    assert_eq!(modified_time(Ok(m)), Ok(42));
    assert_eq!(size(Err(2)), Err(2));
    assert_eq!(permissions(Err(13)), Err(13));
    assert_eq!(modified_time(Err(EINVAL)), Err(EINVAL));
}

#[test]
fn is_utf8_matches_std() {
    assert!(is_utf8(b"plain"));
    assert!(is_utf8("é".as_bytes()));
    assert!(!is_utf8(&[0xed, 0xa0, 0x80]));
}

#[test]
fn join_follows_unix_rules() {
    assert_eq!(join(b"/tmp/", b"a"), b"/tmp/a".to_vec());
    assert_eq!(join(b"/tmp", b"/etc/passwd"), b"/etc/passwd".to_vec());
    assert_eq!(join(b"", b"a"), b"a".to_vec());
    assert_eq!(join(b"/tmp", b""), b"/tmp/".to_vec());
    assert_eq!(join(&[0xff], b"a"), b"a".to_vec());
    assert_eq!(join(b"base", &[0xff]), b"base/".to_vec());
}

#[test]
fn extension_edge_cases() {
    assert_eq!(extension(b"archive.tar.gz"), Some(b"gz".to_vec()));
    assert_eq!(extension(b".bashrc"), None);
    assert_eq!(extension(b"name."), Some(Vec::new()));
    assert_eq!(extension(b"dir/file.txt/."), Some(b"txt".to_vec()));
    assert_eq!(extension(b"dir/.."), None);
    assert_eq!(extension(b"noext"), None);
    assert_eq!(extension(b"/"), None);
    assert_eq!(extension(&[0xff, b'.', b'x']), None);
}

#[test]
fn normalize_edge_cases() {
    assert_eq!(normalize(b""), b".".to_vec());
    assert_eq!(normalize(b"/"), b"/".to_vec());
    assert_eq!(normalize(b"/.."), b"/".to_vec());
    assert_eq!(normalize(b"../a"), b"../a".to_vec());
    assert_eq!(normalize(b"../.."), b".".to_vec());
    assert_eq!(normalize(b"a/../.."), b"..".to_vec());
    assert_eq!(normalize(b"a//b/./c/"), b"a/b/c".to_vec());
    assert_eq!(normalize(&[0xff]), b".".to_vec());
}

#[test]
fn normalize_is_idempotent_on_examples() {
    for p in [&b"/tmp/../var/./log"[..], b"../x/./y/..", b"a/../..", b"", b"//a//b/"] {
        let once = normalize(p);
        assert_eq!(normalize(&once), once);
    }
}

#[test]
fn normalize_keeps_non_ascii_names_readable() {
    let once = normalize("/données/./../été//x".as_bytes());
    assert_eq!(once, "/été/x".as_bytes().to_vec());
    assert!(std::str::from_utf8(&once).is_ok());
    assert_eq!(normalize(&once), once);
}

#[test]
fn process_invocation_checks_the_command_and_drops_unreadable_arguments() {
    assert_eq!(process_invocation(None, &[]), None);
    assert_eq!(process_invocation(Some(&[0xff]), &[b"-l".to_vec()]), None);
    assert_eq!(
        process_invocation(Some(b"ls"), &[b"-l".to_vec(), vec![0xc3], "é".as_bytes().to_vec()]),
        Some(("ls".to_string(), vec!["-l".to_string(), "é".to_string()]))
    );
}
