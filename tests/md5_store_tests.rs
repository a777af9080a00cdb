use disk_hog_backup::digest::{files_match, md5_digest};
use disk_hog_backup::md5_store::{checksum_line, format_md5_line, Md5Store};

const MD5_FILENAME: &str = "disk-hog-backup-hashes.md5";

fn hex(d: &[u8]) -> String {
    d.iter().map(|b| format!("{:02x}", b)).collect()
}

#[test]
fn test_md5_store_save_and_load() {
    let backup_path = "/backups/set";
    let mut store = Md5Store::new(backup_path);

    let hash1 = [1, 2, 3, 4, 5, 6, 7, 8, 9, 10, 11, 12, 13, 14, 15, 16];
    let hash2 = [16, 15, 14, 13, 12, 11, 10, 9, 8, 7, 6, 5, 4, 3, 2, 1];

    store.add_hash("file1.txt", hash1);
    store.add_hash("dir/file2.txt", hash2);

    let index = store.index_text();
    let content = checksum_line(&index);
    assert!(
        content.ends_with(&format!("  {}\n", MD5_FILENAME)),
        "MD5 checksum file should be in md5sum compatible format"
    );
    assert_eq!(
        content.len(),
        32 + 2 + MD5_FILENAME.len() + 1,
        "MD5 checksum file should contain a 32-character hash, two spaces, the filename, and a newline"
    );

    let loaded_store = Md5Store::from_index_text(backup_path, &index);

    assert_eq!(loaded_store.get_hash("file1.txt"), Some(&hash1));
    assert_eq!(loaded_store.get_hash("dir/file2.txt"), Some(&hash2));
    assert_eq!(loaded_store.get_hash("nonexistent.txt"), None);

    assert_eq!(loaded_store.get_hash("file1.txt"), Some(&hash1));
    assert_ne!(loaded_store.get_hash("file1.txt"), Some(&hash2));
}

#[test]
fn test_md5_store_with_invalid_data() {
    let text = "# Comment line\n\n0102030405060708090a0b0c0d0e0f10  valid_file.txt\ninvalid_hash  file_with_invalid_hash.txt\n0102030405060708090a0b0c0d0e0f10\n";

    let store = Md5Store::from_index_text("/backups/set", text);

    assert!(store.get_hash("valid_file.txt").is_some());
    assert!(store.get_hash("file_with_invalid_hash.txt").is_none());
}

#[test]
fn test_md5_checksum_of_md5_file() {
    let mut store = Md5Store::new("/backups/set");

    let hash = [1, 2, 3, 4, 5, 6, 7, 8, 9, 10, 11, 12, 13, 14, 15, 16];
    store.add_hash("file.txt", hash);

    let index = store.index_text();
    let checksum_content = checksum_line(&index);

    let mut hasher = md5::Context::new();
    hasher.consume(index.as_bytes());
    let expected_hash = hex(&hasher.finalize().0);

    let actual_hash = checksum_content.split("  ").next().unwrap();

    assert_eq!(
        expected_hash, actual_hash,
        "MD5 checksum should match the actual hash of the MD5 file"
    );
}

#[test]
fn test_special_characters_in_filenames() {
    let mut store = Md5Store::new("/backups/set");

    let hash1 = [1, 2, 3, 4, 5, 6, 7, 8, 9, 10, 11, 12, 13, 14, 15, 16];
    let path1 = "file\nwith\nnewlines.txt";

    let hash2 = [2, 3, 4, 5, 6, 7, 8, 9, 10, 11, 12, 13, 14, 15, 16, 17];
    let path2 = "file\\with\\backslashes.txt";

    let hash3 = [3, 4, 5, 6, 7, 8, 9, 10, 11, 12, 13, 14, 15, 16, 17, 18];
    let path3 = "file\rwith\rcarriage\rreturns.txt";

    store.add_hash(path1, hash1);
    store.add_hash(path2, hash2);
    store.add_hash(path3, hash3);

    let expected_content = r#"\0102030405060708090a0b0c0d0e0f10  file\nwith\nnewlines.txt
\030405060708090a0b0c0d0e0f101112  file\rwith\rcarriage\rreturns.txt
\02030405060708090a0b0c0d0e0f1011  file\\with\\backslashes.txt
"#;

    let actual_content = store.index_text();
    assert_eq!(expected_content, actual_content);

    let loaded_store = Md5Store::from_index_text("/backups/set", &actual_content);

    assert_eq!(
        loaded_store.get_hash(path1),
        Some(&hash1),
        "Failed to find hash for path with newlines"
    );
    assert_eq!(
        loaded_store.get_hash(path2),
        Some(&hash2),
        "Failed to find hash for path with backslashes"
    );
    assert_eq!(
        loaded_store.get_hash(path3),
        Some(&hash3),
        "Failed to find hash for path with carriage returns"
    );
}

#[test]
fn index_of_one_tiny_file() {
    let digest = md5_digest(b"hi");
    assert_eq!(hex(&digest), "49f68a5c8493ec2c0bf489821c21fc3b");
    let mut store = Md5Store::new("/backups/dhb-set-20240101-000000");
    store.add_hash("a/b.txt", digest);
    let index = store.index_text();
    assert_eq!(index, "49f68a5c8493ec2c0bf489821c21fc3b  a/b.txt\n");
    let sidecar = checksum_line(&index);
    assert_eq!(
        sidecar,
        format!("{}  disk-hog-backup-hashes.md5\n", hex(&md5::compute(index.as_bytes()).0))
    );
}

#[test]
fn index_is_sorted_by_path() {
    let mut store = Md5Store::new("/b");
    store.add_hash("zeta", [0; 16]);
    store.add_hash("alpha", [1; 16]);
    store.add_hash("mid/x", [2; 16]);
    store.add_hash("alpha", [3; 16]);
    let index = store.index_text();
    let paths: Vec<&str> = index.lines().map(|l| l.split("  ").nth(1).unwrap()).collect();
    assert_eq!(paths, vec!["alpha", "mid/x", "zeta"]);
    assert_eq!(store.get_hash("alpha"), Some(&[3; 16]));
}

#[test]
fn index_text_is_independent_of_insertion_order() {
    let mut a = Md5Store::new("/b");
    a.add_hash("x", [1; 16]);
    a.add_hash("y", [2; 16]);
    let mut b = Md5Store::new("/b");
    b.add_hash("y", [2; 16]);
    b.add_hash("x", [1; 16]);
    assert_eq!(a.index_text(), b.index_text());
}

#[test]
fn parse_line_rejects_malformed_lines() {
    assert!(Md5Store::parse_md5_line("").is_none());
    assert!(Md5Store::parse_md5_line("# 0102030405060708090a0b0c0d0e0f10  x").is_none());
    assert!(Md5Store::parse_md5_line("0102030405060708090a0b0c0d0e0f1  x").is_none());
    assert!(Md5Store::parse_md5_line("0102030405060708090a0b0c0d0e0fzz  x").is_none());
    assert!(Md5Store::parse_md5_line("0102030405060708090a0b0c0d0e0f10 x").is_none());
    let (d, p) = Md5Store::parse_md5_line("0102030405060708090A0B0C0D0E0F10  a  b").unwrap();
    assert_eq!(d, [1, 2, 3, 4, 5, 6, 7, 8, 9, 10, 11, 12, 13, 14, 15, 16]);
    assert_eq!(p, "a  b");
}

#[test]
fn unescape_keeps_unknown_escapes() {
    assert_eq!(Md5Store::unescape_path("a\\nb"), "a\nb");
    assert_eq!(Md5Store::unescape_path("a\\\\b"), "a\\b");
    assert_eq!(Md5Store::unescape_path("a\\xb"), "a\\xb");
    assert_eq!(Md5Store::unescape_path("trailing\\"), "trailing\\");
}

#[test]
fn load_handles_crlf_and_missing_final_newline() {
    let text = "0102030405060708090a0b0c0d0e0f10  a.txt\r\n100f0e0d0c0b0a090807060504030201  b.txt";
    let store = Md5Store::from_index_text("/b", text);
    assert_eq!(store.get_hash("a.txt"), Some(&[1, 2, 3, 4, 5, 6, 7, 8, 9, 10, 11, 12, 13, 14, 15, 16]));
    assert_eq!(store.get_hash("b.txt"), Some(&[16, 15, 14, 13, 12, 11, 10, 9, 8, 7, 6, 5, 4, 3, 2, 1]));
}

#[test]
fn format_line_marks_escaped_paths() {
    let line = format_md5_line("x\\y", &[0; 16]);
    assert_eq!(line, "\\00000000000000000000000000000000  x\\\\y\n");
}

#[test]
fn files_match_compares_length_and_digest() {
    assert!(files_match(b"same", b"same"));
    assert!(!files_match(b"same", b"diff"));
    assert!(!files_match(b"short", b"longer"));
    assert!(files_match(b"", b""));
}
