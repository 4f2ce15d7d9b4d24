use dupescan::digest::{calculate_digest, digest_bytes, CHUNK_SIZE};
use dupescan::record::{record_for, FileRecord};
use dupescan::resolver::{resolve_duplicates, DuplicateSet};

fn record(name: &str, content: &[u8]) -> FileRecord {
    FileRecord::new(name.to_string(), format!("/root/{}", name), digest_bytes(content))
        .expect("a well-formed record")
}

fn record_with_hash(name: &str, hash: &str) -> FileRecord {
    FileRecord::new(name.to_string(), format!("/root/{}", name), hash.to_string())
        .expect("a well-formed record")
}

fn names(set: &DuplicateSet) -> Vec<String> {
    let mut out = Vec::new();
    for r in set.records() {
        out.push(r.filename().to_string());
    }
    out
}

#[test]
fn no_records_no_sets() {
    assert!(resolve_duplicates(&Vec::new()).is_empty());
}

#[test]
fn distinct_contents_give_no_sets() {
    let records = vec![record("a", b"one"), record("b", b"two"), record("c", b"three")];
    assert!(resolve_duplicates(&records).is_empty());
}

#[test]
fn three_identical_and_one_different() {
    let records = vec![
        record("a", b"same"),
        record("x", b"other"),
        record("b", b"same"),
        record("c", b"same"),
    ];
    let sets = resolve_duplicates(&records);
    assert_eq!(sets.len(), 1);
    assert_eq!(sets[0].len(), 3);
    assert_eq!(sets[0].hash(), digest_bytes(b"same"));
    assert_eq!(names(&sets[0]), vec!["a", "b", "c"]);
    for set in &sets {
        for r in set.records() {
            assert_ne!(r.filename(), "x");
        }
    }
}

#[test]
fn hello_hello_world_tree() {
    let mut records = Vec::new();
    for (name, content) in [("a.txt", "hello"), ("b.txt", "hello"), ("c.txt", "world")] {
        let digest = calculate_digest(content.as_bytes(), CHUNK_SIZE);
        let made = record_for(name.to_string(), format!("/root/{}", name), Ok(digest));
        records.push(made.expect("a record"));
    }
    assert_eq!(records.len(), 3);
    let sets = resolve_duplicates(&records);
    assert_eq!(sets.len(), 1);
    assert_eq!(sets[0].hash(), "5d41402abc4b2a76b9719d911017c592");
    assert_eq!(names(&sets[0]), vec!["a.txt", "b.txt"]);
    assert_eq!(sets[0].records()[0].filepath(), "/root/a.txt");
    assert_eq!(sets[0].records()[1].filepath(), "/root/b.txt");
    for r in sets[0].records() {
        assert_eq!(r.hash(), "5d41402abc4b2a76b9719d911017c592");
        assert_ne!(r.filename(), "c.txt");
    }
}

#[test]
fn rescan_of_an_unchanged_tree_pairs_every_file() {
    let scan = |records: &mut Vec<FileRecord>| {
        records.push(record("a.txt", b"hello"));
        records.push(record("b.txt", b"hello"));
        records.push(record("c.txt", b"world"));
    };
    let mut records = Vec::new();
    scan(&mut records);
    scan(&mut records);
    assert_eq!(records.len(), 6);
    let sets = resolve_duplicates(&records);
    assert_eq!(sets.len(), 2);
    assert_eq!(sets[0].hash(), digest_bytes(b"hello"));
    assert_eq!(names(&sets[0]), vec!["a.txt", "b.txt", "a.txt", "b.txt"]);
    assert_eq!(sets[1].hash(), digest_bytes(b"world"));
    assert_eq!(names(&sets[1]), vec!["c.txt", "c.txt"]);
}

#[test]
fn larger_sets_come_first() {
    let low = "00000000000000000000000000000000";
    let high = "ffffffffffffffffffffffffffffffff";
    let records = vec![
        record_with_hash("l1", low),
        record_with_hash("h1", high),
        record_with_hash("l2", low),
        record_with_hash("h2", high),
        record_with_hash("h3", high),
    ];
    let sets = resolve_duplicates(&records);
    assert_eq!(sets.len(), 2);
    assert_eq!(sets[0].hash(), high);
    assert_eq!(sets[0].len(), 3);
    assert_eq!(names(&sets[0]), vec!["h1", "h2", "h3"]);
    assert_eq!(sets[1].hash(), low);
    assert_eq!(sets[1].len(), 2);
    assert_eq!(names(&sets[1]), vec!["l1", "l2"]);
}

#[test]
fn sets_of_one_size_come_in_hash_order() {
    let hashes = [
        "b0000000000000000000000000000000",
        "a0000000000000000000000000000001",
        "a0000000000000000000000000000000",
        "9fffffffffffffffffffffffffffffff",
        "a000000000000000000000000000000a",
    ];
    let mut records = Vec::new();
    for (i, h) in hashes.iter().enumerate() {
        records.push(record_with_hash(&format!("first{}", i), h));
    }
    for (i, h) in hashes.iter().enumerate() {
        records.push(record_with_hash(&format!("second{}", i), h));
    }
    let sets = resolve_duplicates(&records);
    let mut listed = Vec::new();
    for set in &sets {
        assert_eq!(set.len(), 2);
        listed.push(set.hash().to_string());
    }
    assert_eq!(
        listed,
        vec![
            "9fffffffffffffffffffffffffffffff",
            "a0000000000000000000000000000000",
            "a0000000000000000000000000000001",
            "a000000000000000000000000000000a",
            "b0000000000000000000000000000000",
        ]
    );
}

#[test]
fn size_decides_before_hash() {
    let records = vec![
        record_with_hash("a1", "aaaaaaaaaaaaaaaaaaaaaaaaaaaaaaaa"),
        record_with_hash("b1", "bbbbbbbbbbbbbbbbbbbbbbbbbbbbbbbb"),
        record_with_hash("c1", "cccccccccccccccccccccccccccccccc"),
        record_with_hash("c2", "cccccccccccccccccccccccccccccccc"),
        record_with_hash("b2", "bbbbbbbbbbbbbbbbbbbbbbbbbbbbbbbb"),
        record_with_hash("a2", "aaaaaaaaaaaaaaaaaaaaaaaaaaaaaaaa"),
        record_with_hash("b3", "bbbbbbbbbbbbbbbbbbbbbbbbbbbbbbbb"),
        record_with_hash("d1", "dddddddddddddddddddddddddddddddd"),
    ];
    let sets = resolve_duplicates(&records);
    assert_eq!(sets.len(), 3);
    assert_eq!(names(&sets[0]), vec!["b1", "b2", "b3"]);
    assert_eq!(names(&sets[1]), vec!["a1", "a2"]);
    assert_eq!(names(&sets[2]), vec!["c1", "c2"]);
}

#[test]
fn same_path_twice_is_a_duplicate_set() {
    let records = vec![record("a.txt", b"hello"), record("a.txt", b"hello")];
    let sets = resolve_duplicates(&records);
    assert_eq!(sets.len(), 1);
    assert_eq!(sets[0].len(), 2);
}
