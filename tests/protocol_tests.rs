use disk_hog_backup::digest::md5_digest;
use disk_hog_backup::md5_store::Md5Store;
use disk_hog_backup::protocol::{
    link_failed, plan_file, record_file, record_settled, settle, should_cancel_write, Disposition,
    FileMeta, FileTime, Plan,
};
use disk_hog_backup::stats::BackupStats;

fn meta(size: u64, secs: i64) -> FileMeta {
    FileMeta { size, mtime: FileTime { secs, nanos: 0 } }
}

fn fresh_stats() -> BackupStats {
    BackupStats::new("/backups/set", "dhb-set-20240101-000000", 0, 0, None)
}

#[test]
fn first_backup_copies_new_file() {
    let digest = md5_digest(b"hi");
    let plan = plan_file(None, None, meta(2, 100));
    assert!(matches!(plan, Plan::CopyNew));
    assert!(plan.needs_read());
    assert_eq!(plan.expected_digest(), None);
    let mut store = Md5Store::new("/backups/set");
    let mut stats = fresh_stats();
    let d = record_file(&mut store, &mut stats, "a/b.txt", 2, &plan, &digest);
    assert_eq!(d, Disposition::New);
    assert_eq!(store.get_hash("a/b.txt"), Some(&digest));
    assert_eq!((stats.files_copied, stats.files_hardlinked, stats.files_new), (1, 0, 1));
    assert_eq!(stats.bytes_copied, 2);
}

#[test]
fn unchanged_rerun_hardlinks_without_reading() {
    let digest = md5_digest(b"hi");
    let m = meta(2, 100);
    let plan = plan_file(Some(&digest), Some(m), m);
    assert!(!plan.needs_read());
    let mut store = Md5Store::new("/backups/set2");
    let mut stats = fresh_stats();
    // nothing was read, so the computed digest is not consulted
    let d = record_file(&mut store, &mut stats, "a/b.txt", 2, &plan, &[0; 16]);
    assert_eq!(d, Disposition::Unchanged);
    assert!(d.is_hardlink());
    assert_eq!(store.get_hash("a/b.txt"), Some(&digest));
    assert_eq!((stats.files_hardlinked, stats.files_copied), (1, 0));
}

#[test]
fn touched_mtime_hardlinks_and_counts_mtime_change() {
    let digest = md5_digest(b"content");
    let plan = plan_file(Some(&digest), Some(meta(7, 100)), meta(7, 200));
    assert_eq!(plan.expected_digest(), Some(digest));
    assert!(should_cancel_write(plan.expected_digest(), &digest));
    let mut store = Md5Store::new("/b");
    let mut stats = fresh_stats();
    let d = record_file(&mut store, &mut stats, "mtime_change.txt", 7, &plan, &digest);
    assert_eq!(d, Disposition::MtimeChanged);
    assert!(d.is_hardlink());
    assert_eq!((stats.files_mtime_changed, stats.files_hash_changed), (1, 0));
    assert_eq!((stats.files_hardlinked, stats.files_copied), (1, 0));
}

#[test]
fn same_size_new_content_is_copied() {
    let old = md5_digest(&[0x00u8; 16]);
    let new = md5_digest(&[0xFFu8; 16]);
    let plan = plan_file(Some(&old), Some(meta(16, 100)), meta(16, 200));
    assert!(!should_cancel_write(plan.expected_digest(), &new));
    let (d, recorded) = settle(&plan, &new);
    assert_eq!(d, Disposition::ContentChanged);
    assert!(!d.is_hardlink());
    assert_eq!(recorded, new);
    let mut store = Md5Store::new("/b");
    let mut stats = fresh_stats();
    record_file(&mut store, &mut stats, "f.bin", 16, &plan, &new);
    assert_eq!(store.get_hash("f.bin"), Some(&new));
    assert_eq!((stats.files_mtime_changed, stats.files_hash_changed), (1, 1));
    assert_eq!((stats.files_hardlinked, stats.files_copied), (0, 1));
}

#[test]
fn size_change_copies() {
    let digest = md5_digest(b"first draft");
    let plan = plan_file(Some(&digest), Some(meta(8, 100)), meta(24, 100));
    assert!(matches!(plan, Plan::CopySizeChanged));
    assert_eq!(plan.expected_digest(), None);
    let (d, _) = settle(&plan, &md5_digest(b"different length content"));
    assert_eq!(d, Disposition::SizeChanged);
}

#[test]
fn missing_prior_file_or_entry_is_new() {
    let digest = md5_digest(b"x");
    assert!(matches!(plan_file(Some(&digest), None, meta(1, 1)), Plan::CopyNew));
    assert!(matches!(plan_file(None, Some(meta(1, 1)), meta(1, 1)), Plan::CopyNew));
}

#[test]
fn zero_byte_file_follows_protocol() {
    let empty = md5_digest(b"");
    assert_eq!(
        empty,
        [0xd4, 0x1d, 0x8c, 0xd9, 0x8f, 0x00, 0xb2, 0x04, 0xe9, 0x80, 0x09, 0x98, 0xec, 0xf8, 0x42, 0x7e]
    );
    let first = plan_file(None, None, meta(0, 5));
    assert_eq!(settle(&first, &empty).0, Disposition::New);
    let again = plan_file(Some(&empty), Some(meta(0, 5)), meta(0, 6));
    assert_eq!(settle(&again, &empty).0, Disposition::MtimeChanged);
}

#[test]
fn failed_hardlink_is_recorded_as_copy() {
    let digest = md5_digest(b"same");
    let m = meta(4, 9);
    let plan = plan_file(Some(&digest), Some(m), m);
    let (d, recorded) = settle(&plan, &[0; 16]);
    assert_eq!(d, Disposition::Unchanged);
    let d = link_failed(d);
    assert_eq!(d, Disposition::LinkFailedCopied);
    assert!(!d.is_hardlink());
    let mut store = Md5Store::new("/b");
    let mut stats = fresh_stats();
    record_settled(&mut store, &mut stats, "x", 4, d, &recorded);
    assert_eq!(store.get_hash("x"), Some(&digest));
    assert_eq!((stats.files_copied, stats.files_hardlinked, stats.bytes_copied), (1, 0, 4));
    assert_eq!(link_failed(Disposition::New), Disposition::New);
}
