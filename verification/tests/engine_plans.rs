use watcher::digest::hash_value;
use watcher::engine::{fetch_names, Engine, FileOp, SyncCommit, SyncPlan};
use watcher::state::StateEntry;
use watcher::filewriter::FileWriter;
use watcher::provider::{ChangeEvent, Operation, Parameter};
use watcher::state::StateStore;

fn param(name: &str, value: &str, version: i64) -> Parameter {
    Parameter {
        name: name.to_string(),
        value: value.to_string(),
        version,
        type_: "String".to_string(),
    }
}

fn engine() -> Engine {
    Engine::new(
        StateStore::new("/tmp/state.json".to_string()),
        FileWriter::new("/tmp/params".to_string(), 0o700, 0o600),
        "/app".to_string(),
    )
}

/// Carries out a plan the way the daemon does (file operations assumed to
/// succeed) and commits it; returns the changed names.
fn run(engine: &mut Engine, plan: SyncPlan) -> (Vec<FileOp>, Vec<String>) {
    match plan.outcome {
        Ok(commit) => {
            let settled = engine.settle(commit);
            (plan.ops, settled.changed)
        }
        Err(_) => panic!("unexpected plan error"),
    }
}

#[test]
fn hash_is_lowercase_hex_sha256() {
    assert_eq!(
        hash_value("1"),
        "6b86b273ff34fce19d6b804eff5a3f5747ada4eaa22f1d49c01e52ddb7875b4b"
    );
    assert_eq!(
        hash_value(""),
        "e3b0c44298fc1c149afbf4c8996fb92427ae41e4649b934ca495991b7852b855"
    );
}

#[test]
fn full_sync_writes_new_and_notifies() {
    let mut e = engine();
    let plan = e.plan_full_sync(&vec![param("/app/a", "1", 1)]);
    let (ops, changed) = run(&mut e, plan);
    assert_eq!(changed, vec!["/app/a".to_string()]);
    assert_eq!(ops.len(), 1);
    match &ops[0] {
        FileOp::Write { name, path, value } => {
            assert_eq!(name, "/app/a");
            assert_eq!(path, "/tmp/params/app/a");
            assert_eq!(value, "1");
        }
        _ => panic!("expected a write"),
    }
    let recorded = e.state.get("/app/a").unwrap();
    assert_eq!(recorded.hash, hash_value("1"));
    assert_eq!(recorded.version, 1);
}

#[test]
fn full_sync_is_a_noop_when_nothing_changed() {
    let mut e = engine();
    let ps = vec![param("/app/a", "1", 1)];
    let plan = e.plan_full_sync(&ps);
    run(&mut e, plan);
    let plan = e.plan_full_sync(&ps);
    let (ops, changed) = run(&mut e, plan);
    assert!(ops.is_empty());
    assert!(changed.is_empty());
}

#[test]
fn full_sync_prunes_removed_parameters() {
    let mut e = engine();
    let plan = e.plan_full_sync(&vec![param("/app/a", "1", 1)]);
    run(&mut e, plan);
    let plan = e.plan_full_sync(&vec![]);
    let (ops, changed) = run(&mut e, plan);
    assert_eq!(changed, vec!["/app/a".to_string()]);
    assert!(matches!(&ops[0], FileOp::Remove { path, .. } if path == "/tmp/params/app/a"));
    assert!(e.state.get("/app/a").is_none());
}

#[test]
fn apply_change_events_handles_update_and_delete() {
    let mut e = engine();
    let plan = e.plan_full_sync(&vec![param("/app/a", "1", 1)]);
    run(&mut e, plan);

    let events = vec![ChangeEvent { name: "/app/a".to_string(), operation: Operation::Updated }];
    assert_eq!(fetch_names(&events), vec!["/app/a".to_string()]);
    let plan = e.plan_change_events(&events, &vec![param("/app/a", "2", 2)]);
    let (ops, changed) = run(&mut e, plan);
    assert_eq!(changed, vec!["/app/a".to_string()]);
    assert!(matches!(&ops[0], FileOp::Write { value, .. } if value == "2"));

    let events = vec![ChangeEvent { name: "/app/a".to_string(), operation: Operation::Deleted }];
    assert!(fetch_names(&events).is_empty());
    let plan = e.plan_change_events(&events, &vec![]);
    let (ops, changed) = run(&mut e, plan);
    assert_eq!(changed, vec!["/app/a".to_string()]);
    assert!(matches!(&ops[0], FileOp::Remove { .. }));
    assert!(e.state.get("/app/a").is_none());
}

#[test]
fn requested_but_missing_names_count_as_deleted() {
    let mut e = engine();
    let plan = e.plan_full_sync(&vec![param("/app/a", "1", 1), param("/app/b", "2", 1)]);
    run(&mut e, plan);
    let events = vec![
        ChangeEvent { name: "/app/a".to_string(), operation: Operation::Updated },
        ChangeEvent { name: "/app/b".to_string(), operation: Operation::Created },
    ];
    // the source returns only /app/a, unchanged: /app/b was deleted meanwhile
    let plan = e.plan_change_events(&events, &vec![param("/app/a", "1", 1)]);
    let (ops, changed) = run(&mut e, plan);
    assert_eq!(changed, vec!["/app/b".to_string()]);
    assert_eq!(ops.len(), 1);
    assert_eq!(e.state.known_names(), vec!["/app/a".to_string()]);
}

#[test]
fn deleting_an_unknown_name_does_nothing() {
    let mut e = engine();
    let events = vec![ChangeEvent { name: "/app/zz".to_string(), operation: Operation::Deleted }];
    let plan = e.plan_change_events(&events, &vec![]);
    let (ops, changed) = run(&mut e, plan);
    assert!(ops.is_empty());
    assert!(changed.is_empty());
}

#[test]
fn invalid_name_stops_the_sync_after_earlier_writes() {
    let e = engine();
    let plan = e.plan_full_sync(&vec![
        param("/app/a", "1", 1),
        param("/app/../x", "2", 1),
        param("/app/c", "3", 1),
    ]);
    assert_eq!(plan.ops.len(), 1);
    assert!(plan.outcome.is_err());
}

#[test]
fn only_changed_values_are_rewritten() {
    let mut e = engine();
    let plan = e.plan_full_sync(&vec![param("/app/a", "1", 1), param("/app/b", "2", 1)]);
    run(&mut e, plan);
    let plan = e.plan_full_sync(&vec![param("/app/a", "1", 5), param("/app/b", "3", 2)]);
    let (ops, changed) = run(&mut e, plan);
    assert_eq!(changed, vec!["/app/b".to_string()]);
    assert_eq!(ops.len(), 1);
    // an unchanged value keeps the version it was recorded with
    assert_eq!(e.state.get("/app/a").unwrap().version, 1);
    assert_eq!(e.state.get("/app/b").unwrap().version, 2);
}

#[test]
fn settling_persists_only_updates_and_notifies_only_changes() {
    let mut e = engine();
    let plan = e.plan_full_sync(&vec![param("/app/a", "1", 1)]);
    let commit = match plan.outcome {
        Ok(c) => c,
        Err(_) => panic!("unexpected plan error"),
    };
    let s = e.settle(commit);
    assert!(s.persist);
    assert!(s.notify);
    assert_eq!(s.changed, vec!["/app/a".to_string()]);
    assert_eq!(e.state.get("/app/a").unwrap().hash, hash_value("1"));

    // the same source again: nothing to record, nobody to tell
    let plan = e.plan_full_sync(&vec![param("/app/a", "1", 1)]);
    let commit = match plan.outcome {
        Ok(c) => c,
        Err(_) => panic!("unexpected plan error"),
    };
    let s = e.settle(commit);
    assert!(!s.persist);
    assert!(!s.notify);
    assert!(s.changed.is_empty());

    // an empty commit leaves the record as it is
    let s = e.settle(SyncCommit { updates: Vec::<(String, Option<StateEntry>)>::new(), changed: vec![] });
    assert!(!s.persist && !s.notify);
    assert_eq!(e.state.known_names(), vec!["/app/a".to_string()]);
}

#[test]
fn engine_keeps_the_writer_modes() {
    let e = Engine::new(
        StateStore::new("/tmp/state.json".to_string()),
        FileWriter::new("/tmp/params".to_string(), 0o700, 0o600),
        "/app".to_string(),
    );
    assert_eq!(e.writer.dir_mode, 0o700);
    assert_eq!(e.writer.file_mode, 0o600);
    assert_eq!(e.writer.root, "/tmp/params");
    assert_eq!(e.prefix, "/app");
}
