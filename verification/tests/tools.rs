use codecrab::json::{parse_json, Json};
use codecrab::paths::Platform;
use codecrab::paths;
use codecrab::tools::{
    check_query, command_seconds, definitions, find_tool, list_files, listing_depth,
    noninteractive_command, parse_arguments, read_file, replace_in_file, search, truncate,
    write_file, ReplaceError, WalkEntry,
};

#[test]
fn reads_and_writes_paths_outside_the_working_directory() {
    assert_eq!(paths::join(Platform::Linux, "/temp/project", "../outside.txt"), "/temp/project/../outside.txt");
    let written = write_file("../outside.txt", "parent");
    assert_eq!(written.get_str("path"), Some("../outside.txt"));
    assert_eq!(written.get_u64("bytes"), Some(6));

    assert_eq!(paths::join(Platform::Linux, "/temp/project", "/temp/absolute.txt"), "/temp/absolute.txt");
    let result = read_file("absolute", &parse_json("{}").unwrap());
    assert_eq!(result.content, "     1 | absolute");
}

#[test]
fn exact_replace_rejects_ambiguous_match() {
    assert!(matches!(
        replace_in_file("same same", "same", "different"),
        Err(ReplaceError::Count(2))
    ));
    assert!(matches!(
        replace_in_file("same", "other", "different"),
        Err(ReplaceError::Count(0))
    ));
    assert!(matches!(replace_in_file("same", "", "x"), Err(ReplaceError::Empty)));
    assert_eq!(replace_in_file("one two", "two", "three").unwrap(), "one three");
}

#[test]
fn a_unique_replacement_can_be_undone() {
    let changed = replace_in_file("a b c", "b", "xyz").unwrap();
    assert_eq!(replace_in_file(&changed, "xyz", "b").unwrap(), "a b c");
}

#[test]
fn long_texts_are_cut_at_whole_characters() {
    assert_eq!(truncate("short".to_owned(), 10), "short");
    let cut = truncate("ééééé".to_owned(), 5);
    assert!(cut.starts_with("éé"));
    assert!(!cut.starts_with("ééé"));
}

#[test]
fn excerpts_number_their_lines() {
    let text = "a\nb\nc\nd";
    let middle = read_file(text, &parse_json(r#"{"start_line":2,"end_line":3}"#).unwrap());
    assert_eq!(middle.content, "     2 | b\n     3 | c");
    assert_eq!(middle.total_lines, 4);
}

#[test]
fn searches_stop_when_they_are_full() {
    let mut found = Vec::new();
    let full = search(Platform::Linux, &mut found, "/root", "/root/src/a.rs", "one\ntwo one", "one");
    assert!(!full);
    assert_eq!(found.len(), 2);
    assert_eq!(found[0].path, "src/a.rs");
    assert_eq!((found[0].line, found[1].line), (1, 2));
    assert!(check_query("").is_err());
    assert!(check_query("x").is_ok());
}

#[test]
fn listings_skip_what_is_not_asked_for() {
    let found = vec![
        WalkEntry { path: "/root/src".to_owned(), is_directory: true },
        WalkEntry { path: "/root/src/a.rs".to_owned(), is_directory: false },
    ];
    let (names, cut) = list_files(Platform::Linux, "/root", "/root", &found);
    assert_eq!(names, vec!["src/".to_owned(), "src/a.rs".to_owned()]);
    assert!(!cut);
    assert_eq!(listing_depth(&parse_json("{}").unwrap()), 3);
    assert_eq!(listing_depth(&parse_json(r#"{"max_depth":99}"#).unwrap()), 8);
}

#[test]
fn tools_are_described_and_found() {
    let all = definitions(vec![Json::Bool(true)]);
    assert_eq!(all.len(), 12);
    assert_eq!(
        all[0].get("function").unwrap().get_str("name"),
        Some("list_files")
    );
    assert_eq!(all[0].get_str("type"), Some("function"));
    assert!(matches!(all[11], Json::Bool(true)));
    assert!(find_tool("read_file", false).is_ok());
    assert_eq!(find_tool("fly", false).unwrap_err(), "unknown tool \"fly\"");
    assert!(parse_arguments("{").unwrap_err().starts_with("invalid arguments: "));
}

#[test]
fn commands_run_for_so_long_at_most() {
    assert_eq!(command_seconds(&parse_json(r#"{"timeout_seconds":1}"#).unwrap()), 1);
    let command = noninteractive_command(Platform::Linux, "ls");
    assert_eq!(command.last().map(String::as_str), Some("ls"));
}
