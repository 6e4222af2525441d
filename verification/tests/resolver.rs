use unrusty::db::{simulate_insert, ObjectType};
use unrusty::paths::{
    ancestors_of, db_path, find_root, index_path_required, relative_path, root_path_required,
    vcs_dir_from_base, PathError, RelativePathToBase,
};

#[test]
fn marker_directory_is_joined_onto_the_base() {
    assert_eq!(vcs_dir_from_base("/home/user/repo"), "/home/user/repo/.unrusty");
    assert_eq!(vcs_dir_from_base("/"), "/.unrusty");
}

#[test]
fn index_path_is_deterministic() {
    assert_eq!(index_path_required("/repo"), "/repo/.unrusty/index");
    assert_eq!(index_path_required("/"), "/.unrusty/index");
}

#[test]
fn object_path_is_determined_by_the_identifier() {
    let id = simulate_insert(b"hello world", ObjectType::Blob);
    assert_eq!(
        db_path("/repo", &id),
        "/repo/.unrusty/objects/95d09f2b10159347eece71399a7e2e907ea3df4f"
    );
    assert_eq!(id.path("/repo"), db_path("/repo", &id));
}

#[test]
fn ancestors_run_from_the_directory_to_the_root() {
    let a = ancestors_of("/a/b/c");
    let views: Vec<&str> = a.iter().map(|s| s.as_str()).collect();
    assert_eq!(views, vec!["/a/b/c", "/a/b", "/a", "/"]);
    assert_eq!(ancestors_of("/").len(), 1);
    assert_eq!(ancestors_of("/")[0], "/");
}

#[test]
fn root_discovery_picks_the_nearest_marked_ancestor() {
    let a = ancestors_of("/repo/sub/dir");
    // the marker exists at /repo/sub and at /repo: the nearest wins
    let flags = vec![false, true, true, false];
    assert_eq!(find_root(&a, &flags), Some(1));
    assert_eq!(root_path_required(&a, &flags).unwrap(), "/repo/sub");
}

#[test]
fn root_discovery_outside_any_repository_finds_nothing() {
    let a = ancestors_of("/somewhere/else");
    let flags = vec![false, false, false];
    assert_eq!(find_root(&a, &flags), None);
    assert!(matches!(root_path_required(&a, &flags), Err(PathError::NoRepoError)));
}

#[test]
fn relative_path_strips_the_root_prefix() {
    assert_eq!(relative_path("/repo/a/b.txt", "/repo").unwrap(), "a/b.txt");
    assert_eq!(relative_path("/repo", "/repo").unwrap(), "");
    assert_eq!(relative_path("/x", "/").unwrap(), "x");
}

#[test]
fn paths_outside_the_root_are_rejected() {
    let err = relative_path("/elsewhere/file", "/repo").unwrap_err();
    match err {
        PathError::NotInRepoError { base, file } => {
            assert_eq!(base, "/repo");
            assert_eq!(file, "/elsewhere/file");
        },
        _ => panic!("expected NotInRepoError"),
    }
    // a sibling whose name merely extends the root is still outside
    assert!(relative_path("/repofake/file", "/repo").is_err());
    assert!(relative_path("/rep", "/repo").is_err());
}

#[test]
fn relative_key_wraps_the_validated_path() {
    let key = RelativePathToBase::try_from("/repo/src/main.rs", "/repo").unwrap();
    assert_eq!(key.as_str(), "src/main.rs");
    let other = RelativePathToBase::new("src/main.rs");
    assert!(key.key_eq(&other));
    assert!(!key.key_eq(&RelativePathToBase::new("src/lib.rs")));
    assert!(RelativePathToBase::try_from("/other/main.rs", "/repo").is_err());
}
