use backup_ignore::marker::{contains_text, marker_for, same_text};
use backup_ignore::walk::{CACHEDIR_MARKER, DEJA_DUP_MARKER, IGNORE_FILE, MARKER_COUNT, VCS_DIR};

#[test]
fn test_names_of_the_files() {
    assert_eq!(DEJA_DUP_MARKER, ".deja-dup-ignore");
    assert_eq!(CACHEDIR_MARKER, "CACHEDIR.TAG");
    assert_eq!(IGNORE_FILE, ".gitignore");
    assert_eq!(VCS_DIR, ".git");
    assert_eq!(MARKER_COUNT, 2);
}

#[test]
fn test_build_directories_get_the_backup_marker() {
    for name in ["node_modules", "venv", ".venv", ".gradle", "target", "build", "out", "dist"] {
        assert_eq!(marker_for(name), Some(".deja-dup-ignore"));
    }
}

#[test]
fn test_caches_get_the_cache_tag() {
    for name in ["cache", ".cache", "__pycache__", "mycache-v2", ".mypy_cache", "xcachex"] {
        assert_eq!(marker_for(name), Some("CACHEDIR.TAG"));
    }
}

#[test]
fn test_other_names_get_no_marker() {
    for name in ["", "src", "Cache", "CACHE", "cach", "ache", "builds", "Target", "node_module", "c a c h e"] {
        assert_eq!(marker_for(name), None);
    }
}

#[test]
fn test_contains_text() {
    assert!(contains_text("abc", ""));
    assert!(contains_text("", ""));
    assert!(!contains_text("", "a"));
    assert!(contains_text("abc", "abc"));
    assert!(contains_text("xxabc", "abc"));
    assert!(contains_text("abcabd", "abd"));
    assert!(!contains_text("ab", "abc"));
    assert!(!contains_text("abxc", "abc"));
    assert!(contains_text("naïve café", "é"));
}

#[test]
fn test_same_text() {
    assert!(same_text("out", "out"));
    assert!(!same_text("out", "Out"));
    assert!(!same_text("out", "outs"));
    assert!(same_text("", ""));
}
