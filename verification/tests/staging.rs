use unrusty::db::{read, simulate_insert, ObjectType};
use unrusty::index::{Index, IndexEntry, MergeStatus, Metadata};
use unrusty::paths::RelativePathToBase;

fn key(s: &str) -> RelativePathToBase {
    RelativePathToBase::new(s)
}

#[test]
fn a_new_path_is_inserted_and_recorded() {
    let mut index = Index::new();
    let meta = Metadata::new(100, 200, 5);
    let out = index
        .add_change(MergeStatus::Regular, key("a.txt"), meta, b"hello")
        .unwrap();
    let (id, bytes) = out.expect("a new path must be re-inserted");
    assert_eq!(id.hash(), simulate_insert(b"hello", ObjectType::Blob).hash());
    let obj = read(&bytes).unwrap();
    assert_eq!(obj.data, b"hello".to_vec());
    let entry = index.get(&key("a.txt")).unwrap();
    assert_eq!(entry.hash.hash(), id.hash());
    assert_eq!(entry.metadata, meta);
    assert!(matches!(entry.status, MergeStatus::Regular));
}

#[test]
fn an_untouched_path_is_left_alone() {
    let mut index = Index::new();
    let meta = Metadata::new(100, 200, 5);
    index
        .add_change(MergeStatus::Regular, key("a.txt"), meta, b"hello")
        .unwrap()
        .expect("first staging inserts");
    let before = index.get(&key("a.txt")).unwrap().hash.hash().to_string();

    // same creation time, modification time and size: no re-insertion,
    // even though the content handed in differs
    let out = index
        .add_change(MergeStatus::Regular, key("a.txt"), meta, b"other content")
        .unwrap();
    assert!(out.is_none());
    let after = index.get(&key("a.txt")).unwrap();
    assert_eq!(after.hash.hash(), before);
    assert_eq!(after.metadata, meta);
}

#[test]
fn a_changed_snapshot_triggers_reinsertion() {
    let mut index = Index::new();
    let meta = Metadata::new(100, 200, 5);
    index
        .add_change(MergeStatus::Regular, key("a.txt"), meta, b"hello")
        .unwrap()
        .expect("first staging inserts");

    // a different modification time alone forces the update
    let touched = Metadata::new(100, 201, 5);
    let out = index
        .add_change(MergeStatus::Regular, key("a.txt"), touched, b"hello!")
        .unwrap();
    let (id, _) = out.expect("a changed path must be re-inserted");
    let entry = index.get(&key("a.txt")).unwrap();
    assert_eq!(entry.hash.hash(), id.hash());
    assert_eq!(entry.hash.hash(), simulate_insert(b"hello!", ObjectType::Blob).hash());
    assert_eq!(entry.metadata, touched);

    // a different size alone forces it too
    let grown = Metadata::new(100, 201, 6);
    assert!(index
        .add_change(MergeStatus::Regular, key("a.txt"), grown, b"hello!!")
        .unwrap()
        .is_some());
}

#[test]
fn reinsertion_happens_even_when_the_content_hash_is_unchanged() {
    let mut index = Index::new();
    let meta = Metadata::new(1, 2, 5);
    index
        .add_change(MergeStatus::Regular, key("a.txt"), meta, b"hello")
        .unwrap()
        .expect("first staging inserts");
    let touched = Metadata::new(1, 3, 5);
    let out = index
        .add_change(MergeStatus::Regular, key("a.txt"), touched, b"hello")
        .unwrap();
    assert!(out.is_some());
    assert_eq!(index.get(&key("a.txt")).unwrap().metadata, touched);
}

#[test]
fn paths_are_tracked_independently() {
    let mut index = Index::new();
    let meta = Metadata::new(1, 2, 3);
    index.add_change(MergeStatus::Regular, key("a"), meta, b"aa").unwrap();
    index.add_change(MergeStatus::Regular, key("b"), meta, b"bb").unwrap();
    assert_eq!(index.entries().len(), 2);
    assert_ne!(
        index.get(&key("a")).unwrap().hash.hash(),
        index.get(&key("b")).unwrap().hash.hash()
    );
    assert!(index.get(&key("c")).is_none());
}

#[test]
fn set_entry_replaces_in_place() {
    let mut index = Index::new();
    let meta = Metadata::new(1, 2, 3);
    let id = simulate_insert(b"v1", ObjectType::Blob);
    index.set_entry(key("a"), IndexEntry::new(MergeStatus::Regular, id, meta));
    let id2 = simulate_insert(b"v2", ObjectType::Blob);
    index.set_entry(key("a"), IndexEntry::new(MergeStatus::Head, id2.clone(), meta));
    assert_eq!(index.entries().len(), 1);
    let entry = index.get(&key("a")).unwrap();
    assert_eq!(entry.hash.hash(), id2.hash());
    assert!(matches!(entry.status, MergeStatus::Head));
}

#[test]
fn changed_compares_the_whole_snapshot() {
    let meta = Metadata::new(7, 8, 9);
    let entry = IndexEntry::new(
        MergeStatus::Regular,
        simulate_insert(b"x", ObjectType::Blob),
        meta,
    );
    assert!(!entry.changed(&Metadata::new(7, 8, 9)));
    assert!(entry.changed(&Metadata::new(6, 8, 9)));
    assert!(entry.changed(&Metadata::new(7, 9, 9)));
    assert!(entry.changed(&Metadata::new(7, 8, 8)));
}
