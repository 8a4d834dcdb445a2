use asset_store::error::StoreError;
use asset_store::guard::{ensure_safe_relative, trim_leading_separators};

#[test]
fn accepts_named_segments_and_current_dir() {
    assert_eq!(ensure_safe_relative("images/profile/sess-42/pic.png"), Ok(()));
    assert_eq!(ensure_safe_relative("./images/./a.png"), Ok(()));
    assert_eq!(ensure_safe_relative("a..b/c.."), Ok(()));
    assert_eq!(ensure_safe_relative("..."), Ok(()));
    assert_eq!(ensure_safe_relative(""), Ok(()));
    assert_eq!(ensure_safe_relative("1:x"), Ok(()));
    assert_eq!(ensure_safe_relative("1:"), Ok(()));
    assert_eq!(ensure_safe_relative("a/1:"), Ok(()));
    assert_eq!(ensure_safe_relative("ab:c"), Ok(()));
    assert_eq!(ensure_safe_relative("a/C:"), Ok(()));
}

#[test]
fn rejects_parent_components() {
    assert_eq!(ensure_safe_relative("../../etc/passwd"), Err(StoreError::UnsafePath));
    assert_eq!(ensure_safe_relative("images/../secret"), Err(StoreError::UnsafePath));
    assert_eq!(ensure_safe_relative("images/.."), Err(StoreError::UnsafePath));
    assert_eq!(ensure_safe_relative(".."), Err(StoreError::UnsafePath));
    assert_eq!(ensure_safe_relative("a\\..\\b"), Err(StoreError::UnsafePath));
}

#[test]
fn rejects_rooted_and_prefixed_paths() {
    assert_eq!(ensure_safe_relative("/etc/passwd"), Err(StoreError::UnsafePath));
    assert_eq!(ensure_safe_relative("\\windows"), Err(StoreError::UnsafePath));
    assert_eq!(ensure_safe_relative("C:\\windows"), Err(StoreError::UnsafePath));
    assert_eq!(ensure_safe_relative("C:foo"), Err(StoreError::UnsafePath));
    assert_eq!(ensure_safe_relative("z:"), Err(StoreError::UnsafePath));
}

#[test]
fn trims_leading_separators_only() {
    assert_eq!(trim_leading_separators("//\\images/a/"), "images/a/");
    assert_eq!(trim_leading_separators("images"), "images");
    assert_eq!(trim_leading_separators("///"), "");
}
