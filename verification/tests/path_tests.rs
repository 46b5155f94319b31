use orbit::stdlib::path::{extension, join, normalize, path_exists};

#[test]
fn join_combines_paths() {
    assert_eq!(join(b"/tmp", b"app/log.txt"), b"/tmp/app/log.txt".to_vec());
}

#[test]
fn extension_returns_file_extension() {
    assert_eq!(extension(b"/tmp/app.log"), Some(b"log".to_vec()));
}

#[test]
fn exists_returns_false_for_invalid_utf8() {
    assert!(!path_exists(&[0xff, 0xff]));
}

#[test]
fn normalize_simplifies_paths() {
    assert_eq!(normalize(b"/tmp/../var/./log"), b"/var/log".to_vec());
}
