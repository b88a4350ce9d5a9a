use codecrab::paths::{is_below, Platform};
use codecrab::project::{
    browse_directories, create_directory, existing_directory, filesystem_roots, resolve_path,
    DirectoryEntry, FoundEntry,
};

#[test]
fn browsing_lists_only_directories_and_resolves_parent_paths() {
    let entry = |name: &str, is_directory: bool| FoundEntry {
        entry: DirectoryEntry { name: name.to_owned(), path: format!("/base/{name}") },
        is_directory,
    };
    let found = vec![entry("Zebra", true), entry("child", true), entry("file.txt", false)];
    let listing = browse_directories(
        "/base".to_owned(),
        Some("/".to_owned()),
        &found,
        vec!["/".to_owned()],
    );

    assert_eq!(listing.directories.len(), 2);
    assert_eq!(listing.directories[0].name, "child");
    assert_eq!(listing.directories[0].path, "/base/child");
    assert_eq!(listing.directories[1].name, "Zebra");
    assert_eq!(listing.parent.as_deref(), Some("/"));
    assert_eq!(resolve_path(Platform::Linux, "/base", "."), "/base/.");
}

#[test]
fn directory_creation_rejects_nested_or_existing_names() {
    assert!(create_directory(Platform::Linux, "/temp", "nested/child").is_err());
    assert!(create_directory(Platform::Linux, "/temp", "..").is_err());
    assert_eq!(create_directory(Platform::Linux, "/temp", "new project").unwrap(), "/temp/new project");
}

#[test]
fn opening_a_project_rejects_files_and_missing_paths() {
    assert_eq!(
        existing_directory("file.txt", Ok(("/base/file.txt".to_owned(), false))).unwrap_err(),
        "/base/file.txt is not a directory"
    );
    assert_eq!(
        existing_directory("/base/missing", Err("not found".to_owned())).unwrap_err(),
        "cannot open project /base/missing: not found"
    );
    assert_eq!(existing_directory(".", Ok(("/base".to_owned(), true))).unwrap(), "/base");
}

#[test]
fn file_systems_begin_where_the_platform_says() {
    assert_eq!(filesystem_roots(Platform::Linux, Vec::new(), None), vec!["/".to_owned()]);
    assert_eq!(
        filesystem_roots(Platform::Windows, vec!["C:\\".to_owned()], None),
        vec!["C:\\".to_owned()]
    );
}

#[test]
fn paths_lie_below_others_part_by_part() {
    assert!(is_below(Platform::Linux, "/a/b", "/a/b/c"));
    assert!(is_below(Platform::Linux, "/a/b/", "/a//b"));
    assert!(!is_below(Platform::Linux, "/a/b", "/a/bc"));
    assert!(!is_below(Platform::Linux, "a", "/a"));
}
