use git_local_ignore::git::find_repo;
use git_local_ignore::paths::{ancestor_dirs, is_normal_dir_path, join_path, parent_dir};

#[test]
fn well_formed_directory_paths() {
    assert!(is_normal_dir_path("/"));
    assert!(is_normal_dir_path("/a"));
    assert!(is_normal_dir_path("/a/b c/d"));
    assert!(!is_normal_dir_path(""));
    assert!(!is_normal_dir_path("a/b"));
    assert!(!is_normal_dir_path("/a/"));
    assert!(!is_normal_dir_path("/a//b"));
}

#[test]
fn join_appends_behind_one_separator() {
    assert_eq!(join_path("/repo", "x").as_str(), "/repo/x");
    assert_eq!(join_path("/", "x").as_str(), "/x");
    assert_eq!(join_path("/repo", "a/b").as_str(), "/repo/a/b");
}

#[test]
fn join_keeps_an_absolute_entry() {
    assert_eq!(join_path("/repo", "/abs/x").as_str(), "/abs/x");
}

#[test]
fn parent_walk() {
    assert_eq!(parent_dir("/a/b").as_str(), "/a");
    assert_eq!(parent_dir("/a").as_str(), "/");
}

#[test]
fn ancestors_nearest_first() {
    let anc = ancestor_dirs("/a/b");
    let anc: Vec<&str> = anc.iter().map(|s| s.as_str()).collect();
    assert_eq!(anc, vec!["/a/b", "/a", "/"]);
}

#[test]
fn ancestors_of_root_is_root_alone() {
    let anc = ancestor_dirs("/");
    assert_eq!(anc.len(), 1);
    assert_eq!(anc[0].as_str(), "/");
}

#[test]
fn locate_picks_the_nearest_marked_ancestor() {
    // Ancestors of /a/b/c: /a/b/c, /a/b, /a, /.
    // Both /a/b and /a are marked; the nearer one wins.
    let probes = vec![false, true, true, false];
    let repo = find_repo("/a/b/c", &probes).expect("a marked ancestor exists");
    assert_eq!(repo.root_dir().as_str(), "/a/b");
    assert_eq!(repo.repo_dir.as_str(), "/a/b/.git");
}

#[test]
fn locate_in_the_marked_directory_itself() {
    let probes = vec![true, false];
    let repo = find_repo("/repo", &probes).expect("the start itself is marked");
    assert_eq!(repo.root_dir().as_str(), "/repo");
    assert_eq!(repo.repo_dir.as_str(), "/repo/.git");
}

#[test]
fn locate_at_the_filesystem_root() {
    let probes = vec![true];
    let repo = find_repo("/", &probes).expect("the root is marked");
    assert_eq!(repo.root_dir().as_str(), "/");
    assert_eq!(repo.repo_dir.as_str(), "/.git");
}

#[test]
fn locate_without_any_marked_ancestor_fails() {
    let probes = vec![false, false, false, false];
    assert!(find_repo("/a/b/c", &probes).is_none());
}

#[test]
fn exclude_file_sits_inside_the_metadata_directory() {
    let probes = vec![true, false];
    let repo = find_repo("/repo", &probes).unwrap();
    assert_eq!(
        repo.exclude_file_path().as_str(),
        "/repo/.git/info/exclude"
    );
}

#[test]
fn repo_reads_and_renders() {
    let probes = vec![true, false];
    let repo = find_repo("/repo", &probes).unwrap();
    let entries = repo.exclude_list("# c\nkeep\n");
    assert_eq!(entries, vec!["keep".to_string()]);
    let block = repo.append_to_exclude_list("/repo/sub", &vec!["file.txt".to_string()]);
    assert_eq!(block.as_str(), "sub/file.txt\n");
}
