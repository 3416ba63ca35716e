use watcher::filewriter::{validate_name, FileWriter, PathError};
use watcher::state::{StateEntry, StateStore};

#[test]
fn maps_parameter_path_under_root() {
    let writer = FileWriter::new("/tmp/root".to_string(), 0o700, 0o600);
    let path = writer.path_for("/myapp/prod/db/password").ok().unwrap();
    assert_eq!(
        std::path::PathBuf::from(path),
        std::path::Path::new("/tmp/root").join("myapp/prod/db/password")
    );
}

#[test]
fn rejects_relative_and_traversal_names() {
    let writer = FileWriter::new("/tmp/root".to_string(), 0o700, 0o600);
    assert!(matches!(writer.path_for("relative/path"), Err(PathError::NotAbsolute(_))));
    assert!(matches!(writer.path_for("/../etc/passwd"), Err(PathError::ParentSegment(_))));
    assert!(matches!(
        writer.path_for("/myapp/../../../etc/passwd"),
        Err(PathError::ParentSegment(_))
    ));
}

#[test]
fn dots_inside_a_segment_are_allowed() {
    assert!(validate_name("/app/a..b").is_ok());
    assert!(validate_name("/app/..").is_err());
    assert!(validate_name("/app/.../x").is_ok());
    assert!(validate_name("").is_err());
}

#[test]
fn root_with_trailing_slash_and_repeated_leading_slashes() {
    let writer = FileWriter::new("/data/".to_string(), 0o700, 0o600);
    assert_eq!(writer.path_for("//a/b").ok().unwrap(), "/data/a/b");
    let bare = FileWriter::new("/data".to_string(), 0o700, 0o600);
    assert_eq!(bare.path_for("/a").ok().unwrap(), "/data/a");
}

fn entry(hash: &str, version: i64) -> StateEntry {
    StateEntry::new(hash.to_string(), version)
}

#[test]
fn none_removes_entry() {
    let mut store = StateStore::new("/tmp/state.json".to_string());
    store.apply(vec![("/a".to_string(), Some(entry("abc", 1)))]);
    store.apply(vec![("/a".to_string(), None)]);
    assert!(store.get("/a").is_none());
    assert!(store.known_names().is_empty());
}

#[test]
fn records_rebuild_the_same_store() {
    // The persisted form is the sorted record list; rebuilding a store from it
    // gives back the same entries.
    let mut store = StateStore::new("/tmp/state.json".to_string());
    assert!(store.get("/a").is_none());
    store.apply(vec![("/a".to_string(), Some(entry("abc", 1)))]);
    let mut reloaded = StateStore::new(store.path().clone());
    let records: Vec<(String, Option<StateEntry>)> = store
        .records()
        .iter()
        .map(|(n, e)| (n.clone(), Some(e.duplicate())))
        .collect();
    reloaded.apply(records);
    let got = reloaded.get("/a").unwrap();
    assert_eq!(got.hash, "abc");
    assert_eq!(got.version, 1);
    assert_eq!(reloaded.known_names(), vec!["/a".to_string()]);
}

#[test]
fn names_stay_sorted_and_unique() {
    let mut store = StateStore::new("s".to_string());
    store.apply(vec![
        ("/c".to_string(), Some(entry("1", 1))),
        ("/a".to_string(), Some(entry("2", 2))),
        ("/b".to_string(), Some(entry("3", 3))),
        ("/a".to_string(), Some(entry("4", 4))),
    ]);
    assert_eq!(
        store.known_names(),
        vec!["/a".to_string(), "/b".to_string(), "/c".to_string()]
    );
    // the later update of the same name wins
    assert_eq!(store.get("/a").unwrap().hash, "4");
    assert_eq!(store.get("/a").unwrap().version, 4);
    store.apply(vec![("/b".to_string(), None), ("/zz".to_string(), None)]);
    assert_eq!(store.known_names(), vec!["/a".to_string(), "/c".to_string()]);
}

#[test]
fn entries_compare_by_hash_and_version() {
    assert!(entry("x", 1).same_as(&entry("x", 1)));
    assert!(!entry("x", 1).same_as(&entry("x", 2)));
    assert!(!entry("x", 1).same_as(&entry("y", 1)));
}

#[test]
fn last_update_of_a_name_decides() {
    let mut store = StateStore::new("s".to_string());
    store.apply(vec![("/k".to_string(), Some(entry("old", 1)))]);
    // a removal then a re-add: the re-add stands
    store.apply(vec![
        ("/k".to_string(), None),
        ("/k".to_string(), Some(entry("new", 2))),
        ("/other".to_string(), Some(entry("o", 1))),
    ]);
    assert_eq!(store.get("/k").unwrap().hash, "new");
    assert_eq!(store.get("/k").unwrap().version, 2);
    // an upsert then a removal: the removal stands, the untouched name stays
    store.apply(vec![("/k".to_string(), Some(entry("newer", 3))), ("/k".to_string(), None)]);
    assert!(store.get("/k").is_none());
    assert_eq!(store.get("/other").unwrap().hash, "o");
}

#[test]
fn recorded_hash_tells_a_no_op_from_a_change() {
    let mut store = StateStore::new("s".to_string());
    store.apply(vec![("/a".to_string(), Some(entry("h1", 1)))]);
    assert!(store.holds_hash("/a", "h1"));
    assert!(!store.holds_hash("/a", "h2"));
    assert!(!store.holds_hash("/b", "h1"));
}

#[test]
fn path_errors_name_the_parameter_first() {
    assert_eq!(
        PathError::NotAbsolute("relative/path".to_string()).message(),
        "parameter name \"relative/path\" must be absolute (start with '/')"
    );
    assert_eq!(
        PathError::ParentSegment("/a/../\"b".to_string()).message(),
        "parameter name \"/a/../\\\"b\" must not contain '..' segments"
    );
}
