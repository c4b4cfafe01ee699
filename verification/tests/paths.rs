// Tests of path discovery: path shapes, file names, the upward candidate
// walk, and the root-marker search.

use awsx::errors::{DiscoveryError, Error};
use awsx::paths::{VerifiedPath, candidate_paths, find_root_folder, join_path, parent_dir};

#[test]
fn path_shapes_are_checked() {
    assert!(VerifiedPath::verify_path("/a/b/config.toml".to_string()).is_ok());
    assert!(VerifiedPath::verify_path("relative/config.toml".to_string()).is_err());
    assert!(VerifiedPath::verify_path("/a/b/".to_string()).is_err());
    assert!(VerifiedPath::verify_path("/a//b".to_string()).is_err());
    assert!(VerifiedPath::verify_path(String::new()).is_err());
}

#[test]
fn file_name_and_parent_are_the_path_split() {
    let p = VerifiedPath::verify_path("/proj/app/config.toml".to_string()).unwrap();
    assert_eq!(p.get_file_name(), "config.toml");
    assert_eq!(parent_dir("/proj/app/config.toml"), "/proj/app");
    assert_eq!(parent_dir("/config.toml"), "/");
    assert_eq!(join_path("/proj", "config.toml"), "/proj/config.toml");
    assert_eq!(join_path("/", "config.toml"), "/config.toml");
}

#[test]
fn discovery_includes_the_leaf_and_stays_inside_the_root() {
    let leaf = VerifiedPath::verify_path("/proj/a/b/config.toml".to_string()).unwrap();
    let candidates = candidate_paths(&leaf, "/proj");
    assert_eq!(
        candidates,
        vec![
            "/proj/a/b/config.toml".to_string(),
            "/proj/a/config.toml".to_string(),
            "/proj/config.toml".to_string(),
        ],
    );
    for c in candidates.iter() {
        assert!(c.starts_with("/proj/"));
        assert!(c.ends_with("/config.toml"));
    }
}

#[test]
fn discovery_is_idempotent_under_reinvocation() {
    let leaf = VerifiedPath::verify_path("/proj/a/config.toml".to_string()).unwrap();
    let first = candidate_paths(&leaf, "/proj");
    let second = candidate_paths(&leaf, "/proj");
    assert_eq!(first, second);
}

#[test]
fn discovery_from_the_root_itself_is_just_the_leaf() {
    let leaf = VerifiedPath::verify_path("/proj/config.toml".to_string()).unwrap();
    let candidates = candidate_paths(&leaf, "/proj");
    assert_eq!(candidates, vec!["/proj/config.toml".to_string()]);
}

#[test]
fn root_folder_is_the_first_directory_with_the_marker() {
    let dirs = vec!["/p/a/b".to_string(), "/p/a".to_string(), "/p".to_string()];
    let marker = vec![false, true, true];
    assert_eq!(find_root_folder(&dirs, &marker).unwrap(), 1);

    let none = vec![false, false, false];
    match find_root_folder(&dirs, &none) {
        Err(Error::Discovery(DiscoveryError::RootFolder)) => {},
        other => panic!("expected the missing-root error, got {:?}", other),
    }
}
