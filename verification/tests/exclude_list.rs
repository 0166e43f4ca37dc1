use git_local_ignore::store::ExcludeList;

#[test]
fn fresh_list_is_empty() {
    let list = ExcludeList::new();
    let entries = list.read_all();
    assert!(entries.is_empty());
    assert_eq!(list.text().as_str(), "");
}

#[test]
fn comment_lines_are_filtered() {
    let list = ExcludeList::from_text("# note\nx.tmp\n".to_string());
    let entries = list.read_all();
    assert_eq!(entries, vec!["x.tmp".to_string()]);
}

#[test]
fn comment_in_the_middle_is_filtered() {
    let list = ExcludeList::from_text("a.txt\n# comment\nb.txt\n".to_string());
    assert_eq!(list.read_all(), vec!["a.txt".to_string(), "b.txt".to_string()]);
}

#[test]
fn hash_inside_a_line_is_kept() {
    let list = ExcludeList::from_text("a#b\n".to_string());
    assert_eq!(list.read_all(), vec!["a#b".to_string()]);
}

#[test]
fn empty_lines_are_entries() {
    let list = ExcludeList::from_text("\n\nx\n".to_string());
    assert_eq!(
        list.read_all(),
        vec![String::new(), String::new(), "x".to_string()]
    );
}

#[test]
fn crlf_terminators_are_stripped() {
    let list = ExcludeList::from_text("a\r\n# c\r\nb".to_string());
    assert_eq!(list.read_all(), vec!["a".to_string(), "b".to_string()]);
}

#[test]
fn unterminated_last_line_is_read() {
    let list = ExcludeList::from_text("a\nb".to_string());
    assert_eq!(list.read_all(), vec!["a".to_string(), "b".to_string()]);
}

#[test]
fn read_all_is_idempotent() {
    let list = ExcludeList::from_text("# note\nx.tmp\ny.log\n".to_string());
    let first = list.read_all();
    let second = list.read_all();
    assert_eq!(first, second);
}

#[test]
fn append_then_read_round_trip() {
    let mut list = ExcludeList::from_text("# c\nold\n".to_string());
    let entries = vec!["a.txt".to_string(), "b/*.log".to_string()];
    list.append("/repo", "/repo", &entries);
    assert_eq!(
        list.read_all(),
        vec!["old".to_string(), "a.txt".to_string(), "b/*.log".to_string()]
    );
}

#[test]
fn append_never_truncates() {
    let mut list = ExcludeList::from_text("kept\n".to_string());
    let block = list.append("/repo", "/repo", &vec!["new".to_string()]);
    assert_eq!(block.as_str(), "new\n");
    assert_eq!(list.text().as_str(), "kept\nnew\n");
}

#[test]
fn append_resolves_against_base_path() {
    let mut list = ExcludeList::new();
    let block = list.append("/repo", "/repo/sub", &vec!["file.txt".to_string()]);
    assert_eq!(block.as_str(), "sub/file.txt\n");
    assert_eq!(list.read_all(), vec!["sub/file.txt".to_string()]);
}

#[test]
fn append_keeps_entry_when_no_relative_path_exists() {
    // A relative resolved path against an absolute root has no relative
    // form; the entry is written verbatim.
    let mut list = ExcludeList::new();
    let block = list.append("/repo", "", &vec!["rel.txt".to_string()]);
    assert_eq!(block.as_str(), "rel.txt\n");
}

#[test]
fn append_keeps_absolute_entry_outside_base() {
    let mut list = ExcludeList::new();
    list.append("/repo", "/repo/sub", &vec!["/repo/other/x".to_string()]);
    assert_eq!(list.read_all(), vec!["other/x".to_string()]);
}

#[test]
fn duplicate_appends_yield_duplicate_lines() {
    let mut list = ExcludeList::new();
    list.append("/repo", "/repo", &vec!["same.txt".to_string()]);
    list.append("/repo", "/repo", &vec!["same.txt".to_string()]);
    assert_eq!(list.text().as_str(), "same.txt\nsame.txt\n");
    assert_eq!(
        list.read_all(),
        vec!["same.txt".to_string(), "same.txt".to_string()]
    );
}

#[test]
fn clear_discards_everything() {
    let mut list = ExcludeList::from_text("# c\na\nb\n".to_string());
    list.clear();
    assert!(list.read_all().is_empty());
    assert_eq!(list.text().as_str(), "");
}

#[test]
fn clear_of_empty_list_stays_empty() {
    let mut list = ExcludeList::new();
    list.clear();
    assert!(list.read_all().is_empty());
}
