use abnana::store::{
    delete_override, get_override_treatment, get_treatment, set_override, set_treatment, AssignmentStore,
    AssignmentTable, Partition, StorageUnavailable,
};

#[test]
fn new_store_holds_nothing() {
    let store = AssignmentStore::new();
    assert_eq!(get_treatment(&store, 1, "alice"), Ok(None));
    assert_eq!(get_override_treatment(&store, 1, "alice"), Ok(None));
}

#[test]
fn set_treatment_is_read_back() {
    let mut store = AssignmentStore::new();
    set_treatment(&mut store, 1, "alice", "control").unwrap();
    assert_eq!(get_treatment(&store, 1, "alice"), Ok(Some("control".to_string())));
}

#[test]
fn set_override_is_read_back() {
    let mut store = AssignmentStore::new();
    set_override(&mut store, 1, "alice", "variant_b").unwrap();
    assert_eq!(get_override_treatment(&store, 1, "alice"), Ok(Some("variant_b".to_string())));
}

#[test]
fn partitions_are_independent() {
    let mut store = AssignmentStore::new();
    set_treatment(&mut store, 1, "alice", "control").unwrap();
    assert_eq!(get_override_treatment(&store, 1, "alice"), Ok(None));
    set_override(&mut store, 2, "bob", "variant_a").unwrap();
    assert_eq!(get_treatment(&store, 2, "bob"), Ok(None));
    assert_eq!(get_treatment(&store, 1, "alice"), Ok(Some("control".to_string())));
    assert_eq!(get_override_treatment(&store, 2, "bob"), Ok(Some("variant_a".to_string())));
}

#[test]
fn set_twice_is_as_set_once() {
    let mut once = AssignmentStore::new();
    set_treatment(&mut once, 7, "carol", "variant_a").unwrap();
    set_treatment(&mut once, 7, "dave", "control").unwrap();

    let mut twice = AssignmentStore::new();
    set_treatment(&mut twice, 7, "carol", "variant_a").unwrap();
    set_treatment(&mut twice, 7, "dave", "control").unwrap();
    set_treatment(&mut twice, 7, "carol", "variant_a").unwrap();

    for user in ["carol", "dave", "erin"] {
        assert_eq!(get_treatment(&once, 7, user), get_treatment(&twice, 7, user));
        assert_eq!(get_override_treatment(&once, 7, user), get_override_treatment(&twice, 7, user));
    }
    assert_eq!(get_treatment(&twice, 7, "carol"), Ok(Some("variant_a".to_string())));
}

#[test]
fn set_override_twice_is_as_set_once() {
    let mut store = AssignmentStore::new();
    set_override(&mut store, 3, "alice", "variant_b").unwrap();
    set_override(&mut store, 3, "alice", "variant_b").unwrap();
    assert_eq!(get_override_treatment(&store, 3, "alice"), Ok(Some("variant_b".to_string())));
    delete_override(&mut store, 3, "alice").unwrap();
    assert_eq!(get_override_treatment(&store, 3, "alice"), Ok(None));
}

#[test]
fn last_write_wins() {
    let mut store = AssignmentStore::new();
    set_treatment(&mut store, 1, "alice", "control").unwrap();
    set_treatment(&mut store, 1, "alice", "variant_a").unwrap();
    assert_eq!(get_treatment(&store, 1, "alice"), Ok(Some("variant_a".to_string())));
    set_override(&mut store, 1, "alice", "variant_b").unwrap();
    set_override(&mut store, 1, "alice", "variant_c").unwrap();
    assert_eq!(get_override_treatment(&store, 1, "alice"), Ok(Some("variant_c".to_string())));
}

#[test]
fn a_write_leaves_other_pairs_alone() {
    let mut store = AssignmentStore::new();
    set_treatment(&mut store, 1, "alice", "control").unwrap();
    set_treatment(&mut store, 1, "bob", "variant_a").unwrap();
    set_treatment(&mut store, 2, "alice", "variant_b").unwrap();
    set_treatment(&mut store, 1, "alice", "variant_c").unwrap();
    assert_eq!(get_treatment(&store, 1, "alice"), Ok(Some("variant_c".to_string())));
    assert_eq!(get_treatment(&store, 1, "bob"), Ok(Some("variant_a".to_string())));
    assert_eq!(get_treatment(&store, 2, "alice"), Ok(Some("variant_b".to_string())));
}

#[test]
fn delete_override_removes_the_entry() {
    let mut store = AssignmentStore::new();
    set_override(&mut store, 1, "alice", "variant_b").unwrap();
    set_override(&mut store, 1, "bob", "variant_a").unwrap();
    delete_override(&mut store, 1, "alice").unwrap();
    assert_eq!(get_override_treatment(&store, 1, "alice"), Ok(None));
    assert_eq!(get_override_treatment(&store, 1, "bob"), Ok(Some("variant_a".to_string())));
}

#[test]
fn delete_of_a_missing_entry_changes_nothing() {
    let mut store = AssignmentStore::new();
    set_override(&mut store, 1, "bob", "variant_a").unwrap();
    set_treatment(&mut store, 1, "alice", "control").unwrap();
    delete_override(&mut store, 1, "alice").unwrap();
    delete_override(&mut store, 9, "nobody").unwrap();
    assert_eq!(get_override_treatment(&store, 1, "bob"), Ok(Some("variant_a".to_string())));
    assert_eq!(get_treatment(&store, 1, "alice"), Ok(Some("control".to_string())));
}

#[test]
fn delete_override_leaves_the_base_assignment() {
    let mut store = AssignmentStore::new();
    set_treatment(&mut store, 1, "alice", "control").unwrap();
    set_override(&mut store, 1, "alice", "variant_b").unwrap();
    delete_override(&mut store, 1, "alice").unwrap();
    assert_eq!(get_treatment(&store, 1, "alice"), Ok(Some("control".to_string())));
}

#[test]
fn store_reads_and_writes_by_partition() {
    let mut store = AssignmentStore::new();
    store.set(Partition::Base, 4, "alice", "control").unwrap();
    store.set(Partition::Override, 4, "alice", "variant_b").unwrap();
    assert_eq!(store.lookup(Partition::Base, 4, "alice"), Ok(Some("control".to_string())));
    assert_eq!(store.lookup(Partition::Override, 4, "alice"), Ok(Some("variant_b".to_string())));
    store.delete(Partition::Base, 4, "alice").unwrap();
    assert_eq!(store.lookup(Partition::Base, 4, "alice"), Ok(None));
    assert_eq!(store.lookup(Partition::Override, 4, "alice"), Ok(Some("variant_b".to_string())));
}

#[test]
fn pairs_differ_by_experiment_and_by_user() {
    let mut table = AssignmentTable::new();
    table.set(1, "alice", "a");
    table.set(2, "alice", "b");
    table.set(1, "alicia", "c");
    table.set(-1, "alice", "d");
    assert_eq!(table.get(1, "alice"), Some("a".to_string()));
    assert_eq!(table.get(2, "alice"), Some("b".to_string()));
    assert_eq!(table.get(1, "alicia"), Some("c".to_string()));
    assert_eq!(table.get(-1, "alice"), Some("d".to_string()));
    assert_eq!(table.get(1, "ALICE"), None);
}

#[test]
fn empty_and_unusual_keys_are_keys_like_any_other() {
    let mut table = AssignmentTable::new();
    table.set(0, "", "");
    table.set(i64::MAX, "ünïcödé", "variant_ß");
    table.set(i64::MIN, " ", "control");
    assert_eq!(table.get(0, ""), Some(String::new()));
    assert_eq!(table.get(i64::MAX, "ünïcödé"), Some("variant_ß".to_string()));
    assert_eq!(table.get(i64::MIN, " "), Some("control".to_string()));
    assert_eq!(table.get(0, " "), None);
}

#[test]
fn table_delete_then_set_again() {
    let mut table = AssignmentTable::new();
    table.set(1, "alice", "a");
    table.set(1, "bob", "b");
    table.set(1, "carol", "c");
    table.delete(1, "bob");
    assert_eq!(table.get(1, "alice"), Some("a".to_string()));
    assert_eq!(table.get(1, "bob"), None);
    assert_eq!(table.get(1, "carol"), Some("c".to_string()));
    table.set(1, "bob", "b2");
    assert_eq!(table.get(1, "bob"), Some("b2".to_string()));
    table.delete(1, "alice");
    table.delete(1, "carol");
    table.delete(1, "bob");
    assert_eq!(table.get(1, "bob"), None);
}

#[test]
fn a_new_store_is_within_reach() {
    let store = AssignmentStore::new();
    assert!(store.is_available());
}

#[test]
fn a_store_out_of_reach_fails_every_read() {
    let mut store = AssignmentStore::new();
    set_treatment(&mut store, 1, "alice", "control").unwrap();
    set_override(&mut store, 1, "alice", "variant_b").unwrap();
    store.set_available(false);
    assert!(!store.is_available());
    assert_eq!(get_treatment(&store, 1, "alice"), Err(StorageUnavailable));
    assert_eq!(get_override_treatment(&store, 1, "alice"), Err(StorageUnavailable));
    assert_eq!(get_treatment(&store, 2, "nobody"), Err(StorageUnavailable));
    assert_eq!(store.lookup(Partition::Base, 1, "alice"), Err(StorageUnavailable));
}

#[test]
fn a_write_that_fails_leaves_no_trace() {
    let mut store = AssignmentStore::new();
    set_treatment(&mut store, 1, "alice", "control").unwrap();
    set_override(&mut store, 1, "alice", "variant_b").unwrap();
    store.set_available(false);
    assert_eq!(set_treatment(&mut store, 1, "alice", "variant_c"), Err(StorageUnavailable));
    assert_eq!(set_treatment(&mut store, 1, "bob", "variant_c"), Err(StorageUnavailable));
    assert_eq!(set_override(&mut store, 1, "alice", "variant_c"), Err(StorageUnavailable));
    assert_eq!(delete_override(&mut store, 1, "alice"), Err(StorageUnavailable));
    assert_eq!(store.delete(Partition::Base, 1, "alice"), Err(StorageUnavailable));
    store.set_available(true);
    assert_eq!(get_treatment(&store, 1, "alice"), Ok(Some("control".to_string())));
    assert_eq!(get_treatment(&store, 1, "bob"), Ok(None));
    assert_eq!(get_override_treatment(&store, 1, "alice"), Ok(Some("variant_b".to_string())));
}

#[test]
fn writes_and_deletes_within_reach_succeed() {
    let mut store = AssignmentStore::new();
    assert_eq!(set_treatment(&mut store, 1, "alice", "control"), Ok(()));
    assert_eq!(set_override(&mut store, 1, "alice", "variant_b"), Ok(()));
    assert_eq!(delete_override(&mut store, 1, "alice"), Ok(()));
    assert_eq!(delete_override(&mut store, 1, "alice"), Ok(()));
}
