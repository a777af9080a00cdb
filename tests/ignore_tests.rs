use disk_hog_backup::ignore_patterns::{IgnoreManager, IgnorePattern};
use disk_hog_backup::walker::{add_to_total, classify_entry, EntryAction, EntryKind};

#[test]
fn test_calculate_total_size() {
    let root = IgnoreManager::new();
    let mut total = 0u64;
    for (name, size) in [("file1.txt", 5u64), ("file2.txt", 7)] {
        total = add_to_total(total, classify_entry(&root, name, EntryKind::File, false), size);
    }
    assert_eq!(classify_entry(&root, "subdir", EntryKind::Dir, true), EntryAction::Descend);
    let sub = root.inherit();
    let action = classify_entry(&sub, "subdir/file3.txt", EntryKind::File, false);
    total = add_to_total(total, action, 4);
    assert_eq!(total, 16, "Should calculate total size of all files");
}

#[test]
fn test_calculate_total_size_respects_ignore() {
    let mut manager = IgnoreManager::new();
    manager.add_patterns_from_text("*.log\n");
    let entries = [("keep.txt", 4u64), ("ignore.log", 11), (".dhbignore", 6)];
    let mut total = 0u64;
    for (name, size) in entries {
        let action = classify_entry(&manager, name, EntryKind::File, false);
        total = add_to_total(total, action, size);
    }
    assert_eq!(total, 10, "Should count keep.txt and .dhbignore but not ignore.log");
}

#[test]
fn ignore_pattern_keeps_other_files() {
    let mut manager = IgnoreManager::new();
    manager.add_patterns_from_text("*.tmp\n");
    assert!(!manager.should_ignore("keep.txt", false));
    assert!(!manager.should_ignore(".dhbignore", false));
    assert!(manager.should_ignore("drop.tmp", false));
    // the answer does not change when asked again
    assert!(manager.should_ignore("drop.tmp", false));
    assert!(!manager.should_ignore("keep.txt", false));
}

#[test]
fn default_pattern_ignores_cache_dirs() {
    let manager = IgnoreManager::new();
    assert!(manager.should_ignore(".cache", true));
    assert!(!manager.should_ignore(".cache", false));
    assert!(manager.should_ignore("a/.cache/x", false));
    assert!(!manager.should_ignore("a/cache/x", false));
}

#[test]
fn negation_reincludes() {
    let mut manager = IgnoreManager::new();
    manager.add_patterns_from_text("*.log\n!important.log\n");
    assert!(manager.should_ignore("unimportant.log", false));
    assert!(!manager.should_ignore("important.log", false));
}

#[test]
fn anchored_and_directory_patterns() {
    let mut manager = IgnoreManager::new();
    manager.add_patterns_from_text("  # comment\n\n/root-file.txt\nbuild/\n/nested/absolute/\nevil\r\n");
    assert!(manager.should_ignore("root-file.txt", false));
    assert!(!manager.should_ignore("nested/root-file.txt", false));
    assert!(manager.should_ignore("build/output.txt", false));
    assert!(manager.should_ignore("nested/really/deeply/build/output.txt", false));
    assert!(!manager.should_ignore("nested/inner/build", false));
    assert!(manager.should_ignore("nested/absolute/specific-file.txt", false));
    assert!(!manager.should_ignore("not-root/nested/absolute/specific-file.txt", false));
    assert!(manager.should_ignore("nested/evil/monkey.txt", false));
    assert!(!manager.should_ignore("nested/not-evil/monkey.txt", false));
}

#[test]
fn child_directory_extends_parent_patterns() {
    let mut parent = IgnoreManager::new();
    parent.add_patterns_from_text("*.tmp");
    let mut child = parent.inherit();
    child.add_patterns_from_text("secret\n");
    assert!(child.should_ignore("sub/a.tmp", false));
    assert!(child.should_ignore("sub/secret", false));
    assert!(!parent.should_ignore("sub/secret", false));
}

#[test]
fn wildcard_matching() {
    assert!(IgnorePattern::matches_wildcard("ignore-me.tmp", "*.tmp"));
    assert!(IgnorePattern::matches_wildcard("nope-1234", "nope-*"));
    assert!(IgnorePattern::matches_wildcard("abc", "a*c"));
    assert!(IgnorePattern::matches_wildcard("ac", "a*c"));
    assert!(!IgnorePattern::matches_wildcard("ab", "ab*bc"));
    assert!(IgnorePattern::matches_wildcard("anything", "*"));
    assert!(!IgnorePattern::matches_wildcard("abd", "a*c"));
}

#[test]
fn pattern_matches_with_directory_flag() {
    let p = IgnorePattern::new("snow*/");
    assert!(p.matches("nested/folder/snowflake/ice.txt", false));
    assert!(p.matches("nested/snowflake", true));
    assert!(!p.matches("nested/file/snowflake", false));
}

#[test]
fn end_to_end_tests_test_backup_skips_special_files() {
    let manager = IgnoreManager::new();
    assert_eq!(classify_entry(&manager, "test_fifo", EntryKind::Special, false), EntryAction::SkipSpecial);
    assert_eq!(classify_entry(&manager, "regular.txt", EntryKind::File, false), EntryAction::CopyFile);
}

#[test]
fn directory_symlink_loop_is_not_followed() {
    let manager = IgnoreManager::new();
    assert_eq!(classify_entry(&manager, "sub/loop", EntryKind::Symlink, true), EntryAction::CopySymlink);
    assert_eq!(classify_entry(&manager, "sub", EntryKind::Dir, true), EntryAction::Descend);
}
