use leveldbcat::reader::{
    DbPathStatus, Entry, export_csv_bytes, export_file_name, is_lock_file_name,
    persisted_lock_file_name, skip_when_copying, validate_db_path,
};

fn status(lock: bool, dot_lock: bool) -> DbPathStatus {
    DbPathStatus {
        display: "/data/db".to_string(),
        exists: true,
        is_dir: true,
        has_current_file: true,
        has_lock_file: lock,
        has_dot_lock_file: dot_lock,
    }
}

#[test]
fn detects_lock_file() {
    assert_eq!(persisted_lock_file_name(&status(true, false)).unwrap(), Some("LOCK"));
}

#[test]
fn detects_dot_lock_file() {
    assert_eq!(persisted_lock_file_name(&status(false, true)).unwrap(), Some(".LOCK"));
}

#[test]
fn skips_root_lock_file_when_requested() {
    assert!(skip_when_copying(true, true, true, "LOCK"));
    assert!(!skip_when_copying(true, true, true, "CURRENT"));
    assert!(!skip_when_copying(true, true, true, "MANIFEST-000001"));
    assert!(!skip_when_copying(false, true, true, "LOCK"));
    assert!(!skip_when_copying(true, false, true, "LOCK"));
    assert!(!skip_when_copying(true, true, false, "LOCK"));
}

#[test]
fn prefers_lock_over_dot_lock() {
    assert_eq!(persisted_lock_file_name(&status(true, true)).unwrap(), Some("LOCK"));
    assert_eq!(persisted_lock_file_name(&status(false, false)).unwrap(), None);
}

#[test]
fn lock_file_names() {
    assert!(is_lock_file_name("LOCK"));
    assert!(is_lock_file_name(".LOCK"));
    assert!(!is_lock_file_name("lock"));
    assert!(!is_lock_file_name("LOCK.old"));
}

#[test]
fn rejects_folders_that_are_not_databases() {
    let mut s = status(false, false);
    s.has_current_file = false;
    assert_eq!(
        validate_db_path(&s),
        Err("Directory does not look like a LevelDB folder (missing CURRENT): /data/db".to_string())
    );
    s.is_dir = false;
    assert_eq!(validate_db_path(&s), Err("Path is not a directory: /data/db".to_string()));
    s.exists = false;
    assert_eq!(validate_db_path(&s), Err("Path does not exist: /data/db".to_string()));
    assert_eq!(
        persisted_lock_file_name(&s),
        Err("Path does not exist: /data/db".to_string())
    );
    assert_eq!(validate_db_path(&status(true, false)), Ok(()));
}

#[test]
fn exports_csv_with_bom_and_byte_views() {
    let entries = vec![
        Entry { key_bytes: b"k1".to_vec(), value_bytes: vec![0x00, b'v'] },
        Entry { key_bytes: b"a,b".to_vec(), value_bytes: b"say \"hi\"".to_vec() },
    ];
    let bytes = export_csv_bytes(&entries).unwrap();
    let mut expected = vec![0xEF, 0xBB, 0xBF];
    expected.extend_from_slice(
        b"key,value\nb'k1',b'\\x00v'\n\"b'a,b'\",\"b'say \"\"hi\"\"'\"\n",
    );
    assert_eq!(bytes, expected);
}

#[test]
fn exports_header_only_for_no_entries() {
    let mut expected = vec![0xEF, 0xBB, 0xBF];
    expected.extend_from_slice(b"key,value\n");
    assert_eq!(export_csv_bytes(&[]).unwrap(), expected);
}

#[test]
fn proposes_csv_file_name() {
    assert_eq!(export_file_name("chrome-db"), "chrome-db.csv");
}
