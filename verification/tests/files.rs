use rubber_duck::files::{file_text, is_within, FileTextError};

#[test]
fn text_file_is_returned() {
    let r = file_text(b"# Test repo\n".to_vec());
    assert_eq!(r.ok().unwrap(), "# Test repo\n");
}

#[test]
fn nul_in_probe_is_binary() {
    let mut bytes = b"abc".to_vec();
    bytes.push(0);
    let r = file_text(bytes);
    assert!(matches!(r, Err(FileTextError::Binary)));
}

#[test]
fn nul_after_probe_is_not_binary() {
    let mut bytes = vec![b'a'; 512];
    bytes.push(0);
    let r = file_text(bytes);
    let s = r.ok().unwrap();
    assert_eq!(s.len(), 513);
}

#[test]
fn invalid_utf8_is_refused() {
    let r = file_text(vec![0xff, 0xfe, b'a']);
    assert!(matches!(r, Err(FileTextError::NotUtf8)));
}

#[test]
fn error_messages_name_the_file() {
    assert_eq!(FileTextError::Binary.message("img.png"), "File 'img.png' appears to be binary");
    assert_eq!(FileTextError::NotUtf8.message("a.bin"), "File 'a.bin' is not valid UTF-8");
}

#[test]
fn containment_is_by_component() {
    assert!(is_within("/repo", "/repo"));
    assert!(is_within("/repo", "/repo/src/main.rs"));
    assert!(!is_within("/repo", "/repository/x"));
    assert!(!is_within("/repo", "/etc/passwd"));
    assert!(is_within("/", "/etc/passwd"));
}

#[test]
fn nul_at_end_of_probe_is_binary() {
    let mut bytes = vec![b'a'; 511];
    bytes.push(0);
    assert!(matches!(file_text(bytes), Err(FileTextError::Binary)));
}
