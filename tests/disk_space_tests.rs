use disk_hog_backup::disk_space::{
    disk_space_for_path, find_longest_matching_mount, DiskInfo, DiskSpace, MockSpaceChecker,
    SpaceChecker,
};

#[test]
fn test_disk_space_difference() {
    let before = DiskSpace::new(1000, 600); // 400 used
    let after = DiskSpace::new(1000, 500); // 500 used

    assert_eq!(after.used_difference(&before), 100);
    assert_eq!(before.used_difference(&after), -100);
}

#[test]
fn test_disk_space_new() {
    let space = DiskSpace::new(1000, 600);
    assert_eq!(space.total, 1000);
    assert_eq!(space.available, 600);
    assert_eq!(space.used, 400);
}

#[test]
fn test_find_longest_matching_mount() {
    // root disk and an external drive
    let mounts = ["/", "/media/backup-drive"];

    let result = find_longest_matching_mount(&mounts, "/media/backup-drive/backups/2024-01-15");
    assert_eq!(result, Some("/media/backup-drive"));

    let result = find_longest_matching_mount(&mounts, "/home/user/backups");
    assert_eq!(result, Some("/"));

    // nested mounts
    let nested_mounts = ["/", "/mnt", "/mnt/external-hdd"];
    let result = find_longest_matching_mount(&nested_mounts, "/mnt/external-hdd/backups/photos");
    assert_eq!(result, Some("/mnt/external-hdd"));

    // no mounts
    let empty: Vec<&str> = vec![];
    let result = find_longest_matching_mount(&empty, "/home/backups");
    assert_eq!(result, None);
}

#[test]
fn test_disk_space_saturating_sub() {
    // available above total must not underflow
    let space = DiskSpace::new(100, 200);
    assert_eq!(space.used, 0);
}

#[test]
fn test_mock_space_checker() -> Result<(), String> {
    let mock = MockSpaceChecker { available: 1000 };

    assert_eq!(mock.get_available_space("/")?, 1000);

    Ok(())
}

#[test]
fn mount_prefix_needs_a_segment_boundary() {
    let mounts = ["/", "/mnt"];
    assert_eq!(find_longest_matching_mount(&mounts, "/mntx/data"), Some("/"));
    assert_eq!(find_longest_matching_mount(&mounts, "/mnt"), Some("/mnt"));
    assert_eq!(find_longest_matching_mount(&["/mnt"], "relative/path"), None);
}

#[test]
fn disk_space_for_path_picks_longest_mount() {
    let disks = vec![
        DiskInfo { mount_point: "/".to_string(), total: 1000, available: 300 },
        DiskInfo { mount_point: "/media/usb".to_string(), total: 5000, available: 4000 },
    ];
    let ds = disk_space_for_path(&disks, "/media/usb/backups").unwrap();
    assert_eq!((ds.total, ds.available, ds.used), (5000, 4000, 1000));
    let ds = disk_space_for_path(&disks, "/home/me").unwrap();
    assert_eq!((ds.total, ds.available, ds.used), (1000, 300, 700));
    assert!(disk_space_for_path(&disks[1..], "/home/me").is_none());
}
