use disk_hog_backup::disk_space::DiskSpace;
use disk_hog_backup::stats::BackupStats;

fn new_stats(session: &str) -> BackupStats {
    BackupStats::new("/backups/backup", session, 0, 0, None)
}

#[test]
fn test_backup_stats_creation() {
    let stats = new_stats("test-session-id");
    assert_eq!(stats.files_hardlinked, 0);
    assert_eq!(stats.files_copied, 0);
    assert_eq!(stats.bytes_hardlinked, 0);
    assert_eq!(stats.bytes_copied, 0);
    assert_eq!(stats.bytes_source_read, 0);
    assert_eq!(stats.bytes_target_read, 0);
    assert_eq!(stats.bytes_target_written, 0);
    assert_eq!(stats.bytes_hashed, 0);
}

#[test]
fn test_adding_file_statistics() {
    let mut stats = new_stats("test-session-id");

    stats.add_source_read(1024 * 1024);
    stats.add_hashed(1024 * 1024);
    stats.add_file_hardlinked(1024 * 1024);

    stats.add_source_read(2 * 1024 * 1024);
    stats.add_hashed(2 * 1024 * 1024);
    stats.add_target_written(2 * 1024 * 1024);
    stats.add_file_copied(2 * 1024 * 1024);

    assert_eq!(stats.files_hardlinked, 1);
    assert_eq!(stats.files_copied, 1);
    assert_eq!(stats.bytes_source_read, 3 * 1024 * 1024);
    assert_eq!(stats.bytes_hardlinked, 1024 * 1024);
    assert_eq!(stats.bytes_copied, 2 * 1024 * 1024);
    assert_eq!(stats.bytes_target_written, 2 * 1024 * 1024);
    assert_eq!(stats.bytes_hashed, 3 * 1024 * 1024);
}

#[test]
fn test_save_stats_format() {
    let mut stats = new_stats("dhb-set-20250929-131320");

    stats.add_source_read(7 * 1024 * 1024 * 1024);
    stats.add_hashed(7 * 1024 * 1024 * 1024);
    stats.add_file_hardlinked(3 * 1024 * 1024 * 1024);
    stats.add_file_copied(2 * 1024 * 1024 * 1024);
    stats.add_target_written(2 * 1024 * 1024 * 1024);

    let lines = stats.format_summary("0.1.0", "2025-09-29 13:13:20.000 UTC", "2025-09-29 13:13:20.010 UTC", 10, &vec![]);
    let contents = BackupStats::summary_file_text(&lines);

    assert!(contents.contains("Backup Summary"));
    assert!(contents.contains("Session ID: dhb-set-20250929-131320"));
    assert!(contents.contains("Time:"));
    assert!(contents.contains("Backup Set Stats:"));
    assert!(contents.contains("I/O:"));

    assert!(contents.contains("Hardlinked:       1 files"));
    assert!(contents.contains("Copied:           1 files"));
    assert!(contents.contains("Total:            2 files"));
}

#[test]
fn test_format_duration() {
    assert_eq!(BackupStats::format_duration(0), "00:00:00.000");
    assert_eq!(BackupStats::format_duration(123), "00:00:00.123");
    assert_eq!(BackupStats::format_duration(65_123), "00:01:05.123");
    assert_eq!(BackupStats::format_duration(3_665_123), "01:01:05.123");
}

#[test]
fn summary_shows_sizes_and_sections() {
    let mut stats = BackupStats::new("/b", "s", 0, 1500, Some(DiskSpace::new(10_000, 6_000)));
    stats.add_file_copied(2048);
    stats.set_final_disk_space(DiskSpace::new(10_000, 4_000));
    stats.set_md5_store_size(1024);
    stats.add_deleted_set("dhb-set-20240101-000000".to_string());
    stats.add_deleted_set("dhb-set-20240102-000000".to_string());
    let pipeline = vec![String::new(), "Pipeline Performance:".to_string()];
    let lines = stats.format_summary("9.9.9", "start", "end", 3_723_004, &pipeline);
    assert_eq!(lines[0], "Backup Summary");
    assert_eq!(lines[2], "Program: disk-hog-backup 9.9.9");
    assert_eq!(lines[10], "  Size Calc: 00:00:01.500");
    assert_eq!(lines[12], "  Duration: 01:02:03.004");
    assert_eq!(lines[15], "  New:              0");
    assert_eq!(lines[20], "  Copied:           1 files, 2.0 KiB");
    assert_eq!(lines[24], "  Source Read: 0 (0 B)");
    assert_eq!(lines[29], "Pipeline Performance:");
    assert_eq!(lines[31], "Disk Space:");
    assert_eq!(lines[34], "  Backup used: 2.0 KiB additional space");
    assert_eq!(lines[35], "  MD5 store:   1.0 KiB");
    assert_eq!(lines[37], "Auto-Deleted Backup Sets:");
    assert_eq!(lines[38], "  dhb-set-20240101-000000");
    assert_eq!(lines[39], "  dhb-set-20240102-000000");
    assert_eq!(lines.len(), 40);
}

#[test]
fn queue_samples_track_sum_and_peak() {
    let mut stats = new_stats("s");
    stats.sample_writer_queue_depth(3);
    stats.sample_writer_queue_depth(7);
    stats.sample_writer_queue_depth(5);
    assert_eq!(
        (stats.writer_queue_depth_samples, stats.writer_queue_depth_sum, stats.writer_queue_depth_max),
        (3, 15, 7)
    );
    stats.add_source_read(u64::MAX);
    stats.add_source_read(5);
    assert_eq!(stats.bytes_source_read, u64::MAX);
}
