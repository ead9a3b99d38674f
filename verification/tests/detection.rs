use dupfi::file_utils::{collect_files, files_to_hash, find_duplicates, FileEntry, FileInfo};

fn info(path: &str, size: u64) -> FileInfo {
    FileInfo::new(path.to_string(), size)
}

fn entry(path: &str, size: u64, is_file: bool) -> FileEntry {
    FileEntry { path: path.to_string(), size, is_file }
}

fn some_bytes(s: &str) -> Option<Vec<u8>> {
    Some(s.as_bytes().to_vec())
}

#[test]
fn test_find_duplicates() {
    let content1 = "test content";
    let content2 = "different content";

    let mut files = vec![
        info("file1.txt", content1.len() as u64),
        info("file2.txt", content1.len() as u64),
        info("file3.txt", content2.len() as u64),
    ];
    let contents = vec![some_bytes(content1), some_bytes(content1), some_bytes(content2)];

    let duplicates = find_duplicates(&mut files, &contents);

    assert_eq!(duplicates.len(), 1);

    for group in &duplicates {
        assert_eq!(group.paths.len(), 2);
    }
}

#[test]
fn test_duplicate_detection() {
    let content1 = "test content 1";
    let content2 = "test content 2";
    let unique = "unique content";

    let mut files = vec![
        info("group1_original.txt", content1.len() as u64),
        info("group1_duplicate1.txt", content1.len() as u64),
        info("group1_duplicate2.txt", content1.len() as u64),
        info("group2_original.txt", content2.len() as u64),
        info("group2_duplicate.txt", content2.len() as u64),
        info("unique.txt", unique.len() as u64),
    ];
    let contents = vec![
        some_bytes(content1),
        some_bytes(content1),
        some_bytes(content1),
        some_bytes(content2),
        some_bytes(content2),
        some_bytes(unique),
    ];

    let duplicates = find_duplicates(&mut files, &contents);

    // Should find 2 groups of duplicates
    assert_eq!(duplicates.len(), 2);

    // First group should have 3 files
    assert!(duplicates.iter().any(|group| group.paths.len() == 3));

    // Second group should have 2 files
    assert!(duplicates.iter().any(|group| group.paths.len() == 2));
}

#[test]
fn test_file_filters() {
    let entries = vec![entry("test.txt", 0, true), entry("test.doc", 0, true)];
    let filters = vec!["doc".to_string()];

    let files = collect_files(&entries, &filters);

    assert_eq!(files.len(), 1);
    assert_eq!(files[0].path, "test.txt");
}

#[test]
fn filters_leave_other_extensions_and_extensionless_names() {
    let entries = vec![
        entry("a.doc", 1, true),
        entry("a.txt", 1, true),
        entry("README", 1, true),
        entry(".bashrc", 1, true),
        entry("archive.tar.gz", 1, true),
        entry("dir.d/file", 1, true),
        entry("skipped.doc", 1, false),
    ];
    let filters = vec!["doc".to_string(), "gz".to_string(), "d".to_string(), "bashrc".to_string()];

    let files = collect_files(&entries, &filters);

    let paths: Vec<&str> = files.iter().map(|f| f.path.as_str()).collect();
    assert_eq!(paths, vec!["a.txt", "README", ".bashrc", "dir.d/file"]);
}

#[test]
fn directories_are_not_collected() {
    let entries = vec![entry("somedir", 0, false), entry("somedir/file.txt", 3, true)];
    let files = collect_files(&entries, &vec![]);
    assert_eq!(files.len(), 1);
    assert_eq!(files[0].path, "somedir/file.txt");
}

#[test]
fn exact_group_for_shared_content() {
    // f1 and f2 hold the same five bytes, f3 six different ones.
    let mut files = vec![
        info("f1.txt", 5),
        info("f2.txt", 5),
        info("f3.txt", 6),
    ];
    let contents = vec![some_bytes("hello"), some_bytes("hello"), some_bytes("world!")];

    let groups = find_duplicates(&mut files, &contents);

    assert_eq!(groups.len(), 1);
    assert_eq!(groups[0].paths, vec!["f1.txt".to_string(), "f2.txt".to_string()]);
    for group in &groups {
        assert!(!group.paths.contains(&"f3.txt".to_string()));
    }
}

#[test]
fn distinct_sizes_yield_no_groups() {
    let mut files = Vec::new();
    let mut contents = Vec::new();
    for i in 0..8u64 {
        files.push(info(&format!("f{}", i), i + 1));
        let body: String = "x".repeat((i + 1) as usize);
        contents.push(some_bytes(&body));
    }

    let groups = find_duplicates(&mut files, &contents);
    assert!(groups.is_empty());

    // Nothing of unique size is ever slated for hashing.
    let fresh: Vec<FileInfo> = (0..8u64).map(|i| info(&format!("f{}", i), i + 1)).collect();
    assert!(files_to_hash(&fresh).is_empty());
}

#[test]
fn detection_is_idempotent() {
    let build = || {
        vec![
            info("a", 4),
            info("b", 4),
            info("c", 4),
        ]
    };
    let contents = vec![some_bytes("same"), some_bytes("same"), some_bytes("diff")];

    let mut first = build();
    let mut second = build();
    let groups1 = find_duplicates(&mut first, &contents);
    let groups2 = find_duplicates(&mut second, &contents);

    assert_eq!(groups1.len(), groups2.len());
    for (g1, g2) in groups1.iter().zip(groups2.iter()) {
        assert_eq!(g1.hash, g2.hash);
        assert_eq!(g1.paths, g2.paths);
    }
}

#[test]
fn unreadable_file_is_left_out_of_its_group() {
    let mut files = vec![info("a", 5), info("b", 5), info("c", 5)];
    let contents = vec![some_bytes("hello"), some_bytes("hello"), None];

    let groups = find_duplicates(&mut files, &contents);

    assert_eq!(groups.len(), 1);
    assert_eq!(groups[0].paths, vec!["a".to_string(), "b".to_string()]);
}

#[test]
fn empty_files_are_legitimate_duplicates() {
    let mut files = vec![info("empty1", 0), info("empty2", 0)];
    let contents = vec![some_bytes(""), some_bytes("")];

    let groups = find_duplicates(&mut files, &contents);

    assert_eq!(groups.len(), 1);
    assert_eq!(groups[0].paths.len(), 2);
}

#[test]
fn calculate_hash_records_a_digest() {
    let mut file = info("a.txt", 5);
    assert!(file.hash.is_none());
    file.calculate_hash(&b"hello".to_vec());
    let digest = file.hash.clone().unwrap();
    assert_eq!(digest.len(), 32);
    assert_ne!(digest, b"hello".to_vec());

    // The same content digests identically on another record.
    let mut other = info("b.txt", 5);
    other.calculate_hash(&b"hello".to_vec());
    assert_eq!(other.hash.unwrap(), digest);
}

#[test]
fn digests_are_real_and_fixed_length() {
    let mut files = vec![info("a", 5), info("b", 5)];
    let contents = vec![some_bytes("hello"), some_bytes("hello")];

    let groups = find_duplicates(&mut files, &contents);

    assert_eq!(groups.len(), 1);
    // A SHA-256 digest is 32 bytes and is not the content handed back.
    assert_eq!(groups[0].hash.len(), 32);
    assert_ne!(groups[0].hash, b"hello".to_vec());
}
