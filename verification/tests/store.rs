//! End-to-end tests of the store: the directory model stands in for the
//! disk, and a mirror `Dir` plays the part the real directory plays under
//! the shell, replaying every action the engine reports.

use bjw_db::{Database, DataFormat, Dir, FsAction, JsonFormat, KeyValueStore,
    KeyValueStoreReadParams, KeyValueStoreReadReturn, KeyValueStoreUpdateParams,
    KeyValueStoreUpdateReturn, StoreError};

type Db = Database<KeyValueStore, JsonFormat>;

fn apply_all(mirror: &mut Dir, acts: &[FsAction]) {
    for a in acts.iter() {
        mirror.apply_one(a);
    }
}

fn open_fresh(path: &str, mirror: &mut Dir) -> Db {
    let o = Database::open(path, None, JsonFormat::new()).unwrap();
    assert!(!o.log_truncated);
    apply_all(mirror, &o.actions);
    o.db
}

fn reopen(path: &str, mirror: &mut Dir) -> Db {
    let o = Database::open(path, Some(mirror.clone()), JsonFormat::new()).unwrap();
    apply_all(mirror, &o.actions);
    o.db
}

/// The durable-append-then-apply protocol the shell runs for one update.
fn run_update(
    db: &mut Db,
    mirror: &mut Dir,
    params: KeyValueStoreUpdateParams,
) -> KeyValueStoreUpdateReturn {
    let bytes = db.prepare_update(&params).unwrap();
    let name = db.log_filename();
    mirror.apply_one(&FsAction::AppendFile { name, bytes });
    db.update(&params, true).unwrap()
}

fn insert(db: &mut Db, mirror: &mut Dir, key: &str, value: &str) {
    let r = run_update(
        db,
        mirror,
        KeyValueStoreUpdateParams::Insert(key.to_string(), value.to_string()),
    );
    assert!(matches!(r, KeyValueStoreUpdateReturn::Insert(())));
}

fn insert_with_check(db: &mut Db, mirror: &mut Dir, key: &str, value: &str) -> bool {
    let r = run_update(
        db,
        mirror,
        KeyValueStoreUpdateParams::InsertWithCheck(key.to_string(), value.to_string()),
    );
    match r {
        KeyValueStoreUpdateReturn::InsertWithCheck(b) => b,
        _ => unreachable!(),
    }
}

fn get(db: &Db, key: &str) -> Option<String> {
    let KeyValueStoreReadReturn::Get(v) = db.read(&KeyValueStoreReadParams::Get(key.to_string()));
    v
}

fn checkpoint(db: &mut Db, mirror: &mut Dir) {
    let acts = db.create_checkpoint().unwrap();
    apply_all(mirror, &acts);
}

#[test]
fn test_normal_operation() {
    let mut mirror = Dir::new();
    let path = "kv-store";

    // create new db
    let mut db = open_fresh(path, &mut mirror);
    insert(&mut db, &mut mirror, "key", "value");
    insert(&mut db, &mut mirror, "more", "value");
    assert!(!insert_with_check(&mut db, &mut mirror, "key", ""));
    assert_eq!(get(&db, "key"), Some("value".to_string()));

    // create a checkpoint
    checkpoint(&mut db, &mut mirror);
    insert(&mut db, &mut mirror, "another", "pair");

    // re-open db
    let data = db.clone_data();
    let mut db = reopen(path, &mut mirror);
    assert_eq!(data, db.clone_data());

    // create a checkpoint and don't update, but re-open right away (-> tests empty log)
    checkpoint(&mut db, &mut mirror);
    let db = reopen(path, &mut mirror);

    // delete
    let acts = db.delete();
    apply_all(&mut mirror, &acts);
}

#[test]
fn scenario_open_update_read_reopen() {
    let mut mirror = Dir::new();
    let mut db = open_fresh("p", &mut mirror);
    insert(&mut db, &mut mirror, "k", "v");
    assert_eq!(get(&db, "k"), Some("v".to_string()));
    let db = reopen("p", &mut mirror);
    assert_eq!(get(&db, "k"), Some("v".to_string()));
}

#[test]
fn scenario_checkpoint_then_log_survives_reopen() {
    let mut mirror = Dir::new();
    let mut db = open_fresh("p", &mut mirror);
    insert(&mut db, &mut mirror, "a", "1");
    insert(&mut db, &mut mirror, "b", "2");
    checkpoint(&mut db, &mut mirror);
    insert(&mut db, &mut mirror, "c", "3");
    let cloned = db.clone_data();
    let db = reopen("p", &mut mirror);
    assert_eq!(cloned, db.clone_data());
    assert_eq!(get(&db, "a"), Some("1".to_string()));
    assert_eq!(get(&db, "b"), Some("2".to_string()));
    assert_eq!(get(&db, "c"), Some("3".to_string()));
}

#[test]
fn scenario_checkpoint_empty_log_reopen() {
    let mut mirror = Dir::new();
    let mut db = open_fresh("p", &mut mirror);
    insert(&mut db, &mut mirror, "k", "v");
    checkpoint(&mut db, &mut mirror);
    // reopen right away: the new log is empty, replay is degenerate
    let db = reopen("p", &mut mirror);
    assert_eq!(get(&db, "k"), Some("v".to_string()));
}

#[test]
fn scenario_delete_then_open_creates_new() {
    let mut mirror = Dir::new();
    let mut db = open_fresh("p", &mut mirror);
    insert(&mut db, &mut mirror, "k", "v");
    let acts = db.delete();
    apply_all(&mut mirror, &acts);
    assert!(mirror.read_file("version").is_none());
    // the directory is gone; opening the same path starts over
    let db = open_fresh("p", &mut Dir::new());
    assert_eq!(get(&db, "k"), None);
}

#[test]
fn failed_append_leaves_state_unchanged() {
    let mut mirror = Dir::new();
    let mut db = open_fresh("p", &mut mirror);
    insert(&mut db, &mut mirror, "k", "v");
    let params = KeyValueStoreUpdateParams::Insert("lost".to_string(), "x".to_string());
    let _bytes = db.prepare_update(&params).unwrap();
    // the durable append failed: nothing reaches the log, nothing is applied
    let r = db.update(&params, false);
    assert_eq!(r.unwrap_err(), StoreError::IoFailure);
    assert_eq!(get(&db, "lost"), None);
    assert_eq!(get(&db, "k"), Some("v".to_string()));
    // the mirror was never touched, and reopening from it agrees
    let db2 = reopen("p", &mut mirror.clone());
    assert_eq!(db2.clone_data(), db.clone_data());
}

#[test]
fn retention_removes_old_versions() {
    let mut mirror = Dir::new();
    let mut db = open_fresh("p", &mut mirror);
    insert(&mut db, &mut mirror, "k", "v");
    assert!(mirror.read_file("checkpoint.0").is_some());
    assert!(mirror.read_file("logfile.0").is_some());
    checkpoint(&mut db, &mut mirror);
    assert!(mirror.read_file("checkpoint.0").is_none());
    assert!(mirror.read_file("logfile.0").is_none());
    assert!(mirror.read_file("new_version").is_none());
    assert!(mirror.read_file("checkpoint.1").is_some());
    assert!(mirror.read_file("logfile.1").is_some());
    assert_eq!(mirror.read_file("version").unwrap().as_slice(), b"1");
}

#[test]
fn version_file_and_names_use_decimal() {
    let mut mirror = Dir::new();
    let mut db = open_fresh("p", &mut mirror);
    assert_eq!(db.version(), 0);
    assert_eq!(db.log_filename(), "logfile.0");
    assert_eq!(mirror.read_file("version").unwrap().as_slice(), b"0");
    for _ in 0..12 {
        checkpoint(&mut db, &mut mirror);
    }
    assert_eq!(db.version(), 12);
    assert_eq!(db.log_filename(), "logfile.12");
    assert_eq!(mirror.read_file("version").unwrap().as_slice(), b"12");
    assert!(mirror.read_file("checkpoint.12").is_some());
}

#[test]
fn truncated_log_tail_keeps_prefix() {
    let mut mirror = Dir::new();
    let mut db = open_fresh("p", &mut mirror);
    insert(&mut db, &mut mirror, "a", "1");
    insert(&mut db, &mut mirror, "b", "2");
    let full_state = db.clone_data();
    // a crash mid-append leaves a torn fragment at the end of the log
    mirror.apply_one(&FsAction::AppendFile {
        name: "logfile.0".to_string(),
        bytes: b"[\"insert\",\"torn".to_vec(),
    });
    let o = Database::<KeyValueStore, JsonFormat>::open("p", Some(mirror.clone()), JsonFormat::new())
        .unwrap();
    assert!(o.log_truncated);
    apply_all(&mut mirror, &o.actions);
    let db = o.db;
    assert_eq!(db.clone_data(), full_state);
    assert_eq!(get(&db, "a"), Some("1".to_string()));
    assert_eq!(get(&db, "b"), Some("2".to_string()));
    // open repaired the log to its well-formed prefix: a further reopen is clean
    let o2 = Database::<KeyValueStore, JsonFormat>::open("p", Some(mirror.clone()), JsonFormat::new())
        .unwrap();
    assert!(!o2.log_truncated);
    assert_eq!(o2.db.clone_data(), full_state);
}

#[test]
fn interrupted_commit_finishes_on_open() {
    let mut mirror = Dir::new();
    let mut db = open_fresh("p", &mut mirror);
    insert(&mut db, &mut mirror, "k", "v");
    let expected = db.clone_data();
    let acts = db.create_checkpoint().unwrap();
    // the crash: the new checkpoint, log and staging pointer reached disk,
    // but the atomic rename and the cleanup did not
    for a in acts.iter() {
        match a {
            FsAction::Rename { .. } => break,
            _ => mirror.apply_one(a),
        }
    }
    assert!(mirror.read_file("new_version").is_some());
    let db2 = reopen("p", &mut mirror);
    assert_eq!(db2.version(), 1);
    assert_eq!(db2.clone_data(), expected);
    assert_eq!(get(&db2, "k"), Some("v".to_string()));
}

#[test]
fn corrupt_version_pointer_fails_open() {
    let mut dir = Dir::new();
    dir.put("version", b"not a number");
    dir.put("checkpoint.0", b"[]");
    dir.put("logfile.0", b"");
    let r = Database::<KeyValueStore, JsonFormat>::open("p", Some(dir), JsonFormat::new());
    assert_eq!(r.err().unwrap(), StoreError::CorruptVersion);
}

#[test]
fn missing_version_pointer_fails_open() {
    let dir = Dir::new();
    let r = Database::<KeyValueStore, JsonFormat>::open("p", Some(dir), JsonFormat::new());
    assert_eq!(r.err().unwrap(), StoreError::CorruptVersion);
}

#[test]
fn corrupt_checkpoint_fails_open() {
    let mut dir = Dir::new();
    dir.put("version", b"0");
    dir.put("checkpoint.0", b"not json at all");
    dir.put("logfile.0", b"");
    let r = Database::<KeyValueStore, JsonFormat>::open("p", Some(dir), JsonFormat::new());
    assert_eq!(r.err().unwrap(), StoreError::CorruptCheckpoint);
}

#[test]
fn missing_checkpoint_fails_open() {
    let mut dir = Dir::new();
    dir.put("version", b"0");
    dir.put("logfile.0", b"");
    let r = Database::<KeyValueStore, JsonFormat>::open("p", Some(dir), JsonFormat::new());
    assert_eq!(r.err().unwrap(), StoreError::CorruptCheckpoint);
}

#[test]
fn missing_log_fails_open() {
    let mut dir = Dir::new();
    dir.put("version", b"0");
    dir.put("checkpoint.0", b"[]");
    let r = Database::<KeyValueStore, JsonFormat>::open("p", Some(dir), JsonFormat::new());
    assert_eq!(r.err().unwrap(), StoreError::IoFailure);
}

#[test]
fn hand_written_directory_recovers() {
    // a directory whose files were written by another process in the same
    // format: version pointer, checkpoint pairs, one log line
    let mut dir = Dir::new();
    dir.put("version", b"7");
    dir.put("checkpoint.7", b"[[\"x\",\"1\"]]");
    dir.put("logfile.7", b"[\"insert\",\"y\",\"2\"]\n");
    let o = Database::<KeyValueStore, JsonFormat>::open("p", Some(dir), JsonFormat::new())
        .unwrap();
    assert!(!o.log_truncated);
    let db = o.db;
    assert_eq!(db.version(), 7);
    assert_eq!(get(&db, "x"), Some("1".to_string()));
    assert_eq!(get(&db, "y"), Some("2".to_string()));
    assert_eq!(db.log_filename(), "logfile.7");
}

#[test]
fn unknown_operation_name_truncates_replay() {
    let mut dir = Dir::new();
    dir.put("version", b"0");
    dir.put("checkpoint.0", b"[]");
    // the second record has a well-formed shape but an unknown operation
    dir.put(
        "logfile.0",
        b"[\"insert\",\"a\",\"1\"]\n[\"drop_all\",\"a\",\"1\"]\n[\"insert\",\"b\",\"2\"]\n",
    );
    let o = Database::<KeyValueStore, JsonFormat>::open("p", Some(dir), JsonFormat::new())
        .unwrap();
    assert!(o.log_truncated);
    assert_eq!(get(&o.db, "a"), Some("1".to_string()));
    assert_eq!(get(&o.db, "b"), None);
}

#[test]
fn empty_log_lines_are_skipped() {
    let mut dir = Dir::new();
    dir.put("version", b"0");
    dir.put("checkpoint.0", b"[]");
    dir.put("logfile.0", b"\n\n[\"insert\",\"a\",\"1\"]\n\n");
    let o = Database::<KeyValueStore, JsonFormat>::open("p", Some(dir), JsonFormat::new())
        .unwrap();
    assert!(!o.log_truncated);
    assert_eq!(get(&o.db, "a"), Some("1".to_string()));
}

#[test]
fn insert_replaces_and_checked_insert_refuses() {
    let mut mirror = Dir::new();
    let mut db = open_fresh("p", &mut mirror);
    insert(&mut db, &mut mirror, "k", "v1");
    insert(&mut db, &mut mirror, "k", "v2");
    assert_eq!(get(&db, "k"), Some("v2".to_string()));
    assert!(!insert_with_check(&mut db, &mut mirror, "k", "v3"));
    assert_eq!(get(&db, "k"), Some("v2".to_string()));
    assert!(insert_with_check(&mut db, &mut mirror, "fresh", "v4"));
    assert_eq!(get(&db, "fresh"), Some("v4".to_string()));
    // every one of those outcomes is reproduced by replay
    let db2 = reopen("p", &mut mirror);
    assert_eq!(db2.clone_data(), db.clone_data());
}

#[test]
fn read_all_and_path_expose_the_store() {
    let mut mirror = Dir::new();
    let mut db = open_fresh("some/dir", &mut mirror);
    assert_eq!(db.path(), "some/dir");
    insert(&mut db, &mut mirror, "k", "v");
    let whole: &KeyValueStore = db.read_all();
    let copy = whole.clone();
    assert_eq!(copy, db.clone_data());
}

#[test]
fn version_beyond_u64_is_corrupt() {
    let mut dir = Dir::new();
    dir.put("version", b"99999999999999999999999");
    dir.put("checkpoint.0", b"[]");
    dir.put("logfile.0", b"");
    let r = Database::<KeyValueStore, JsonFormat>::open("p", Some(dir), JsonFormat::new());
    assert_eq!(r.err().unwrap(), StoreError::CorruptVersion);
}

#[test]
fn duplicate_keys_in_checkpoint_use_first_binding() {
    let mut dir = Dir::new();
    dir.put("version", b"0");
    dir.put("checkpoint.0", b"[[\"x\",\"1\"],[\"x\",\"2\"]]");
    dir.put("logfile.0", b"");
    let o = Database::<KeyValueStore, JsonFormat>::open("p", Some(dir), JsonFormat::new())
        .unwrap();
    let mut db = o.db;
    let mut mirror = Dir::new();
    assert_eq!(get(&db, "x"), Some("1".to_string()));
    // insert replaces the first binding, which is the one reads see
    insert(&mut db, &mut mirror, "x", "3");
    assert_eq!(get(&db, "x"), Some("3".to_string()));
}
