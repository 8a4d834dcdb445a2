use asset_store::codec::encode_payload;
use asset_store::error::StoreError;
use asset_store::files::normalize_target_path;
use asset_store::store::{check_session_id, locate_image, resolve_handle, session_directories};
use base64::Engine;

fn decode(text: &str) -> Vec<u8> {
    base64::engine::general_purpose::STANDARD.decode(text).unwrap()
}

#[test]
fn save_handle_for_plain_names() {
    let loc = locate_image("profile", "sess-42", "pic.png").unwrap();
    assert_eq!(loc.relative_path(), "images/profile/sess-42/pic.png");
    assert_eq!(loc.directory(), "images/profile/sess-42");
    let bytes: Vec<u8> = vec![0x89, 0x50, 0x4e, 0x47, 0, 255];
    let resolved = resolve_handle(&loc.relative_path()).unwrap();
    assert_eq!(resolved, "images/profile/sess-42/pic.png");
    assert_eq!(encode_payload(&bytes), "iVBORwD/");
}

#[test]
fn category_with_slash_is_flattened() {
    let loc = locate_image("pro/file", "s1", "a.png").unwrap();
    assert_eq!(loc.relative_path(), "images/pro-file/s1/a.png");
    assert_eq!(loc.category, "pro-file");
}

#[test]
fn file_name_is_sanitized() {
    let loc = locate_image("cat", "s1", "../evil").unwrap();
    assert_eq!(loc.relative_path(), "images/cat/s1/..-evil");
    let loc = locate_image("", "s1", "").unwrap();
    assert_eq!(loc.relative_path(), "images/file/s1/file");
}

#[test]
fn session_id_with_colon_is_kept() {
    let loc = locate_image("c", "1:2", "f").unwrap();
    assert_eq!(loc.relative_path(), "images/c/1:2/f");
    assert_eq!(resolve_handle(&loc.relative_path()), Ok("images/c/1:2/f".to_string()));
}

#[test]
fn encoded_text_uses_the_standard_alphabet() {
    let bytes: Vec<u8> = (0..=255u8).rev().collect();
    for n in 0..bytes.len() {
        let text = encode_payload(&bytes[..n]);
        let body = text.trim_end_matches('=');
        assert!(text.len() - body.len() <= 2);
        assert!(body
            .chars()
            .all(|c| c.is_ascii_alphanumeric() || c == '+' || c == '/'));
    }
    assert_eq!(encode_payload(&[0xfb, 0xff]), "+/8=");
}

#[test]
fn traversal_handle_is_refused() {
    assert_eq!(resolve_handle("../../etc/passwd"), Err(StoreError::UnsafePath));
    assert_eq!(resolve_handle("images/../../x"), Err(StoreError::UnsafePath));
    assert_eq!(resolve_handle("C:\\x"), Err(StoreError::UnsafePath));
}

#[test]
fn leading_separators_are_dropped_from_handles() {
    assert_eq!(resolve_handle("/images/a/s/b.png"), Ok("images/a/s/b.png".to_string()));
    assert_eq!(resolve_handle("\\\\images/a"), Ok("images/a".to_string()));
}

#[test]
fn session_ids_that_escape_are_refused() {
    assert_eq!(check_session_id("sess-42"), Ok(()));
    assert_eq!(check_session_id(""), Err(StoreError::EmptyInput));
    assert_eq!(check_session_id(".."), Err(StoreError::UnsafePath));
    assert_eq!(check_session_id("."), Err(StoreError::UnsafePath));
    assert_eq!(check_session_id("../x"), Err(StoreError::UnsafePath));
    assert_eq!(check_session_id("a\\b"), Err(StoreError::UnsafePath));
    assert_eq!(check_session_id("c:"), Err(StoreError::UnsafePath));
    assert_eq!(check_session_id("C:x"), Err(StoreError::UnsafePath));
    assert_eq!(check_session_id("1:2"), Ok(()));
    assert_eq!(check_session_id("ab:c"), Ok(()));
    assert!(matches!(locate_image("cat", "../..", "a.png"), Err(StoreError::UnsafePath)));
    assert!(matches!(locate_image("cat", "", "a.png"), Err(StoreError::EmptyInput)));
}

#[test]
fn delete_targets_only_the_session() {
    let cats = vec!["cat".to_string(), "other".to_string()];
    let dirs = session_directories("s1", &cats).unwrap();
    assert_eq!(dirs, vec!["images/cat/s1".to_string(), "images/other/s1".to_string()]);
    let kept = locate_image("cat", "s2", "a.png").unwrap().relative_path();
    assert!(dirs.iter().all(|d| kept != *d && !kept.starts_with(&format!("{d}/"))));
    let gone = locate_image("cat", "s1", "a.png").unwrap().relative_path();
    assert!(dirs.iter().any(|d| gone.starts_with(&format!("{d}/"))));
}

#[test]
fn delete_targets_are_the_same_each_time() {
    let cats = vec!["cat".to_string()];
    assert_eq!(session_directories("s9", &cats), session_directories("s9", &cats));
    assert_eq!(session_directories("s9", &Vec::new()), Ok(Vec::new()));
    assert_eq!(session_directories("..", &cats), Ok(Vec::new()));
    assert_eq!(session_directories("a/b", &cats), Ok(Vec::new()));
    assert_eq!(session_directories("D:x", &cats), Ok(Vec::new()));
    assert_eq!(session_directories("1:2", &cats), Ok(vec!["images/cat/1:2".to_string()]));
    assert_eq!(session_directories("", &cats), Err(StoreError::EmptyInput));
}

#[test]
fn encoding_round_trips() {
    for bytes in [vec![], vec![0u8], vec![1, 2], b"hello".to_vec(), (0..=255u8).collect()] {
        let text = encode_payload(&bytes);
        assert_eq!(text.len(), 4 * bytes.len().div_ceil(3));
        assert_eq!(decode(&text), bytes);
    }
    assert_eq!(encode_payload(b"hello"), "aGVsbG8=");
    assert_eq!(encode_payload(&[]), "");
}

#[test]
fn write_target_is_normalized() {
    assert_eq!(normalize_target_path(""), Err(StoreError::EmptyInput));
    assert_eq!(normalize_target_path(" \t\n"), Err(StoreError::EmptyInput));
    assert_eq!(normalize_target_path("\u{3000}"), Err(StoreError::EmptyInput));
    assert_eq!(normalize_target_path("file:///tmp/a.bin"), Ok("/tmp/a.bin".to_string()));
    assert_eq!(normalize_target_path("file://file:///x"), Ok("/x".to_string()));
    assert_eq!(normalize_target_path("/tmp/x"), Ok("/tmp/x".to_string()));
    assert_eq!(normalize_target_path(" file:///x"), Ok(" file:///x".to_string()));
}
