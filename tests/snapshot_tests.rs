use checkpoint::codec::{decode, encode, SnapshotMetadata};
use checkpoint::snapshot::{
    begin_snapshot, finish_snapshot, list_snapshots, rename_snapshot, snapshot_path, tally_entries,
    verify_snapshot, CopyTally, FileEntry, ListedDir, SnapshotError, SIDECAR_NAME,
};
use checkpoint::timestamp::Timestamp;

fn record(id: &str, day: u32, size: u64, file_count: usize) -> SnapshotMetadata {
    SnapshotMetadata {
        id: id.to_string(),
        game_id: "game".to_string(),
        timestamp: Timestamp::from_parts(2024, 5, day, 12, 0, 0, 0).unwrap(),
        name: format!("snap {}", id),
        size,
        file_count,
    }
}

fn file(name: &str, size: u64) -> FileEntry {
    FileEntry { name: name.to_string(), depth: 1, is_file: true, size }
}

fn dir_entry(name: &str) -> FileEntry {
    FileEntry { name: name.to_string(), depth: 1, is_file: false, size: 4096 }
}

#[test]
fn verify_without_sidecar_is_false() {
    assert_eq!(verify_snapshot(None, &vec![file("save.dat", 3)]), Ok(false));
}

#[test]
fn verify_with_corrupt_sidecar_is_an_error() {
    assert_eq!(verify_snapshot(Some("{"), &vec![]), Err(SnapshotError::CorruptMetadata));
}

#[test]
fn verify_untouched_snapshot_is_true() {
    let text = encode(&record("a", 1, 30, 2));
    let entries = vec![
        dir_entry("a"),
        file("save.dat", 10),
        dir_entry("sub"),
        file("slot.dat", 20),
        file(SIDECAR_NAME, 999),
    ];
    assert_eq!(verify_snapshot(Some(&text), &entries), Ok(true));
}

#[test]
fn verify_detects_added_and_removed_files() {
    let text = encode(&record("a", 1, 30, 2));
    let added = vec![file("save.dat", 10), file("slot.dat", 20), file("new.dat", 0)];
    assert_eq!(verify_snapshot(Some(&text), &added), Ok(false));
    let removed = vec![file("save.dat", 10)];
    assert_eq!(verify_snapshot(Some(&text), &removed), Ok(false));
    let resized = vec![file("save.dat", 11), file("slot.dat", 20)];
    assert_eq!(verify_snapshot(Some(&text), &resized), Ok(false));
}

#[test]
fn tally_counts_regular_files_but_not_the_sidecar() {
    let entries = vec![file("a", 5), dir_entry("d"), file(SIDECAR_NAME, 7), file("b", 6)];
    let t = tally_entries(&entries).unwrap();
    assert_eq!((t.total_bytes, t.file_count), (11, 2));
    assert!(tally_entries(&vec![file("a", u64::MAX), file("b", 1)]).is_none());
    let empty = tally_entries(&vec![]).unwrap();
    assert_eq!((empty.total_bytes, empty.file_count), (0, 0));
}

#[test]
fn copy_tally_records_each_file() {
    let mut t = CopyTally::new();
    assert_eq!(t.record(100), Ok(()));
    assert_eq!(t.record(23), Ok(()));
    assert_eq!((t.total_bytes, t.file_count), (123, 2));
    assert_eq!(t.record(u64::MAX), Err(SnapshotError::SizeOverflow));
    assert_eq!((t.total_bytes, t.file_count), (123, 2));
}

#[test]
fn list_orders_latest_first() {
    let dirs = vec![
        ListedDir { path: "/b/game/two".to_string(), sidecar: Some(encode(&record("two", 2, 0, 0))) },
        ListedDir { path: "/b/game/none".to_string(), sidecar: None },
        ListedDir { path: "/b/game/three".to_string(), sidecar: Some(encode(&record("three", 3, 0, 0))) },
        ListedDir { path: "/b/game/one".to_string(), sidecar: Some(encode(&record("one", 1, 0, 0))) },
    ];
    let v = list_snapshots(dirs).unwrap();
    let ids: Vec<&str> = v.iter().map(|s| s.id.as_str()).collect();
    assert_eq!(ids, vec!["three", "two", "one"]);
    assert_eq!(v[0].path, "/b/game/three");
    assert_eq!(v[2].name, "snap one");
}

#[test]
fn list_of_nothing_is_empty() {
    assert_eq!(list_snapshots(vec![]), Ok(vec![]));
}

#[test]
fn list_with_corrupt_sidecar_fails() {
    let dirs = vec![
        ListedDir { path: "/b/game/one".to_string(), sidecar: Some(encode(&record("one", 1, 0, 0))) },
        ListedDir { path: "/b/game/bad".to_string(), sidecar: Some("garbage".to_string()) },
    ];
    assert_eq!(list_snapshots(dirs), Err(SnapshotError::CorruptMetadata));
}

#[test]
fn deleted_snapshot_is_not_listed() {
    let before = vec![
        ListedDir { path: "/b/game/one".to_string(), sidecar: Some(encode(&record("one", 1, 0, 0))) },
        ListedDir { path: "/b/game/two".to_string(), sidecar: Some(encode(&record("two", 2, 0, 0))) },
    ];
    assert_eq!(list_snapshots(before.clone()).unwrap().len(), 2);
    let after: Vec<ListedDir> = before.into_iter().filter(|d| d.path != "/b/game/one").collect();
    let v = list_snapshots(after).unwrap();
    assert_eq!(v.len(), 1);
    assert_eq!(v[0].id, "two");
}

#[test]
fn rename_twice_keeps_everything_but_the_name() {
    let m = record("a", 1, 30, 2);
    let text = encode(&m);
    let once = rename_snapshot(Some(&text), "X").unwrap();
    let twice = rename_snapshot(Some(&once), "X").unwrap();
    assert_eq!(once, twice);
    let back = decode(&twice).unwrap();
    assert_eq!(back.name, "X");
    assert_eq!(back, SnapshotMetadata { name: "X".to_string(), ..m });
}

#[test]
fn rename_without_or_with_bad_sidecar_fails() {
    assert_eq!(rename_snapshot(None, "X"), Err(SnapshotError::SnapshotMetadataNotFound));
    assert_eq!(rename_snapshot(Some("{}"), "X"), Err(SnapshotError::CorruptMetadata));
}

#[test]
fn begin_refuses_missing_save_location() {
    assert_eq!(begin_snapshot("game", false, None, "/b").err(), Some(SnapshotError::SourceNotFound));
}

#[test]
fn begin_lays_out_a_snapshot() {
    let p = begin_snapshot("game", true, Some("mine".to_string()), "/b").unwrap();
    assert_eq!(p.name, "mine");
    assert_eq!(p.game_id, "game");
    assert_eq!(p.id.len(), 36);
    assert_eq!(p.path, snapshot_path("/b", "game", &p.id));
    let q = begin_snapshot("game", true, None, "/b").unwrap();
    assert_ne!(p.id, q.id);
    assert_eq!(q.name, q.timestamp.format(checkpoint::timestamp::FILE_NAME_PATTERN));
    assert_eq!(q.name.len(), 19);
    assert_eq!(&q.name[10..11], "_");
}

#[test]
fn snapshot_path_nests_game_and_id() {
    let p = snapshot_path("/backups", "game", "id1");
    assert_eq!(p, std::path::Path::new("/backups").join("game").join("id1").to_string_lossy());
}

#[test]
fn finish_writes_a_matching_sidecar() {
    let p = begin_snapshot("game", true, None, "/b").unwrap();
    let mut tally = CopyTally::new();
    tally.record(7).unwrap();
    let (snap, text) = finish_snapshot(p, tally);
    assert_eq!((snap.size, snap.file_count), (7, 1));
    let m = decode(&text).unwrap();
    assert_eq!(m.id, snap.id);
    assert_eq!(m.timestamp, snap.timestamp);
    assert_eq!(m.name, snap.name);
    assert_eq!(verify_snapshot(Some(&text), &vec![file("save.dat", 7)]), Ok(true));
}

#[test]
fn nested_file_named_like_the_sidecar_is_content() {
    let text = encode(&record("a", 1, 15, 2));
    let nested = FileEntry { name: SIDECAR_NAME.to_string(), depth: 2, is_file: true, size: 5 };
    let entries = vec![file("save.dat", 10), nested, file(SIDECAR_NAME, 300)];
    assert_eq!(verify_snapshot(Some(&text), &entries), Ok(true));
}

#[test]
fn compact_sidecar_is_verified_renamed_and_listed() {
    let compact = "{\"id\":\"a\",\"game_id\":\"game\",\"timestamp\":\"2024-05-01T12:00:00Z\",\"name\":\"snap a\",\"size\":10,\"file_count\":1}";
    assert_eq!(verify_snapshot(Some(compact), &vec![file("save.dat", 10)]), Ok(true));
    let renamed = rename_snapshot(Some(compact), "X").unwrap();
    assert_eq!(decode(&renamed).unwrap().name, "X");
    let v = list_snapshots(vec![ListedDir { path: "/b/game/a".to_string(), sidecar: Some(compact.to_string()) }]).unwrap();
    assert_eq!(v[0].id, "a");
}

#[test]
fn equal_instants_keep_directory_order() {
    let dirs = vec![
        ListedDir { path: "/b/game/x".to_string(), sidecar: Some(encode(&record("x", 1, 0, 0))) },
        ListedDir { path: "/b/game/late".to_string(), sidecar: Some(encode(&record("late", 2, 0, 0))) },
        ListedDir { path: "/b/game/y".to_string(), sidecar: Some(encode(&record("y", 1, 0, 0))) },
        ListedDir { path: "/b/game/z".to_string(), sidecar: Some(encode(&record("z", 1, 0, 0))) },
    ];
    let ids: Vec<String> = list_snapshots(dirs).unwrap().into_iter().map(|s| s.id).collect();
    assert_eq!(ids, vec!["late", "x", "y", "z"]);
}
