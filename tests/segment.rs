use asset_store::segment::sanitize_segment;

fn is_safe(s: &str) -> bool {
    !s.is_empty()
        && s.chars().all(|c| c.is_ascii_alphanumeric() || c == '-' || c == '_' || c == '.')
}

#[test]
fn keeps_plain_file_names() {
    assert_eq!(sanitize_segment("pic.png"), "pic.png");
    assert_eq!(sanitize_segment("My_File-2.tar.gz"), "My_File-2.tar.gz");
}

#[test]
fn replaces_disallowed_characters_with_dashes() {
    assert_eq!(sanitize_segment("pro/file"), "pro-file");
    assert_eq!(sanitize_segment("a b"), "a-b");
    assert_eq!(sanitize_segment("héllo"), "h-llo");
    assert_eq!(sanitize_segment("-x-"), "-x-");
    assert_eq!(sanitize_segment("..\\x"), "..-x");
}

#[test]
fn empty_and_all_unsafe_input_give_fallback() {
    assert_eq!(sanitize_segment(""), "file");
    assert_eq!(sanitize_segment("///"), "file");
    assert_eq!(sanitize_segment("???!!"), "file");
    assert_eq!(sanitize_segment("---"), "file");
    assert_eq!(sanitize_segment("日本"), "file");
}

#[test]
fn directory_markers_give_fallback() {
    assert_eq!(sanitize_segment("."), "file");
    assert_eq!(sanitize_segment(".."), "file");
    assert_eq!(sanitize_segment("/../"), "file");
    assert_eq!(sanitize_segment("..."), "...");
}

#[test]
fn sanitized_output_is_safe_and_idempotent() {
    for s in ["", "pic.png", "pro/file", "../../etc/passwd", " ", "a\u{0}b", "--..--", "é"] {
        let once = sanitize_segment(s);
        assert!(is_safe(&once), "{once}");
        assert_eq!(sanitize_segment(&once), once);
    }
}
