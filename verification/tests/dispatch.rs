use git_local_ignore::cli::{
    add_needs_confirmation, clear_needs_confirmation, validate_add_entries, FatalError,
};

#[test]
fn add_with_no_entries_is_fatal() {
    let entries: Vec<String> = vec![];
    assert_eq!(
        validate_add_entries(&entries),
        Err(FatalError::NoEntriesProvided)
    );
}

#[test]
fn add_with_entries_is_accepted() {
    let entries = vec!["a.txt".to_string()];
    assert_eq!(validate_add_entries(&entries), Ok(()));
}

#[test]
fn clear_is_confirmed_unless_forced() {
    assert!(clear_needs_confirmation(false));
    assert!(!clear_needs_confirmation(true));
}

#[test]
fn add_is_confirmed_only_for_several_entries() {
    assert!(!add_needs_confirmation(false, 1));
    assert!(add_needs_confirmation(false, 2));
    assert!(!add_needs_confirmation(true, 2));
    assert!(!add_needs_confirmation(true, 0));
}

#[test]
fn fatal_errors_have_single_line_messages() {
    assert_eq!(
        FatalError::NoEntriesProvided.message().as_str(),
        "No entries to exclude provided"
    );
    assert_eq!(
        FatalError::WorkingDirectoryInaccessible.message().as_str(),
        "Unable to access current working dir"
    );
    assert!(FatalError::RepositoryNotFound
        .message()
        .as_str()
        .contains("git repository"));
    assert!(!FatalError::ExcludeFileIoError.message().as_str().contains('\n'));
}
