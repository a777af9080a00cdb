use disk_hog_backup::backup_sets::{
    find_most_recent_backup_set, find_most_recent_set, generate_backup_set_name, generate_name,
    join_path, list_backup_sets, BackupSetInfo, SetEntry, SetTimestamp,
};
use disk_hog_backup::reclaim::{time_spans, ReclaimSelection};

fn entry(name: &str, is_dir: bool, created: u64, complete: bool) -> SetEntry {
    SetEntry { name: name.to_string(), is_dir, created, complete }
}

fn info(name: &str, created: u64, size: u64) -> BackupSetInfo {
    BackupSetInfo { name: name.to_string(), path: format!("/tmp/{}", name), created, size }
}

#[test]
fn test_generates_set_name() {
    let fixed_time = SetTimestamp { year: 2001, month: 2, day: 3, hour: 14, minute: 5, second: 6 };
    let name = generate_name(&fixed_time);
    assert_eq!(name, "dhb-set-20010203-140506");
}

#[test]
fn set_name_of_now_has_the_layout() {
    let name = generate_backup_set_name();
    assert!(name.starts_with("dhb-set-"));
    assert_eq!(name.len(), "dhb-set-YYYYMMDD-HHMMSS".len());
    assert_eq!(&name[16..17], "-");
    assert!(name[8..16].chars().all(|c| c.is_ascii_digit()));
}

#[test]
fn sets_are_listed_oldest_first() {
    let entries = vec![
        entry("dhb-set-20240103-000000", true, 300, true),
        entry("notes.txt", false, 50, false),
        entry("dhb-set-20240101-000000", true, 100, true),
        entry("other-dir", true, 10, false),
        entry("dhb-set-20240102-000000", true, 100, false),
        entry("dhb-set-file", false, 20, false),
    ];
    let sets = list_backup_sets("/backups", &entries);
    let names: Vec<&str> = sets.iter().map(|s| s.name.as_str()).collect();
    assert_eq!(
        names,
        vec!["dhb-set-20240101-000000", "dhb-set-20240102-000000", "dhb-set-20240103-000000"]
    );
    assert_eq!(sets[0].path, "/backups/dhb-set-20240101-000000");
}

#[test]
fn most_recent_set_skips_incomplete_sets() {
    let entries = vec![
        entry("dhb-set-20240101-000000", true, 100, true),
        entry("dhb-set-20240102-000000", true, 200, true),
        entry("dhb-set-20240103-000000", true, 300, false),
    ];
    assert_eq!(find_most_recent_set(&entries).as_deref(), Some("dhb-set-20240102-000000"));
    assert_eq!(
        find_most_recent_backup_set("/backups/", &entries).as_deref(),
        Some("/backups/dhb-set-20240102-000000")
    );
    assert_eq!(find_most_recent_set(&entries[2..]), None);
    assert_eq!(find_most_recent_backup_set("/backups", &[]), None);
}

#[test]
fn join_adds_one_separator() {
    assert_eq!(join_path("/a", "b"), "/a/b");
    assert_eq!(join_path("/a/", "b"), "/a/b");
    assert_eq!(join_path("", "b"), "b");
}

#[test]
fn reclaim_never_takes_newest_and_frees_enough() {
    let now = 1_700_000_000u64;
    let day = 86_400u64;
    let sets = vec![
        info("dhb-set-20240101-000000", now - 30 * day, 1000),
        info("dhb-set-20240102-000000", now - 20 * day, 2000),
        info("dhb-set-20240103-000000", now - 10 * day, 1500),
    ];
    let spans = time_spans(&sets);
    assert_eq!(spans, vec![now - 30 * day, 10 * day, 10 * day]);

    let mut sel = ReclaimSelection::new(&sets, 2500);
    assert_eq!(sel.candidate_positions(), &vec![0, 1]);
    while !sel.is_done() {
        sel.take(0, &sets);
    }
    let chosen = sel.chosen_positions().clone();
    assert_eq!(chosen, vec![0, 1]);
    let freed: u64 = chosen.iter().map(|&i| sets[i].size).sum();
    assert!(freed >= 2500);
    assert!(!chosen.contains(&2));
}

#[test]
fn reclaim_stops_once_enough_is_freed() {
    let sets = vec![info("a", 1, 3000), info("b", 2, 10), info("c", 3, 10)];
    let mut sel = ReclaimSelection::new(&sets, 2500);
    sel.take(0, &sets);
    assert!(sel.is_done());
    assert_eq!(sel.chosen_positions(), &vec![0]);
}

#[test]
fn reclaim_keeps_a_lone_set() {
    let sets = vec![info("dhb-set-20240101-000000", 1, 5000)];
    let sel = ReclaimSelection::new(&sets, 10000);
    assert!(sel.is_done());
    assert!(sel.chosen_positions().is_empty());
}

#[test]
fn reclaim_takes_one_set_when_nothing_is_needed() {
    let sets = vec![info("a", 1, 1000), info("b", 2, 2000)];
    let mut sel = ReclaimSelection::new(&sets, 0);
    assert!(!sel.is_done());
    sel.take(0, &sets);
    assert!(sel.is_done());
    assert_eq!(sel.chosen_positions().len(), 1);
}
