use codecrab::paths::Platform;
use codecrab::json::Json;
use codecrab::toolbox::{
    excerpt, execute, listing, replaced, search_result, shell_noninteractive, FileFault, ToolAction,
};
use codecrab::tools::{read_file, search};

#[test]
fn calls_say_what_has_to_be_done() {
    let call = |name: &str, args: &str| execute(name, args, false);
    match call("list_files", r#"{"max_depth":20}"#).unwrap() {
        ToolAction::ListFiles { path, depth } => assert_eq!((path.as_str(), depth), (".", 8)),
        other => panic!("{other:?}"),
    }
    match call("replace_in_file", r#"{"path":"a","old":"x","new":"y"}"#).unwrap() {
        ToolAction::ReplaceInFile { path, old_text, new_text } => {
            assert_eq!((path.as_str(), old_text.as_str(), new_text.as_str()), ("a", "x", "y"));
        }
        other => panic!("{other:?}"),
    }
    match call("shell_noninteractive", r#"{"command":"ls","timeout_seconds":0}"#).unwrap() {
        ToolAction::ShellNoninteractive { command, seconds } => {
            assert_eq!((command.as_str(), seconds), ("ls", 1));
        }
        other => panic!("{other:?}"),
    }
    match call("terminal_input", r#"{"terminal_id":"terminal_1","actions":[1,2]}"#).unwrap() {
        ToolAction::TerminalInput { terminal_id, actions } => {
            assert_eq!((terminal_id.as_str(), actions.len()), ("terminal_1", 2));
        }
        other => panic!("{other:?}"),
    }
    assert!(matches!(call("terminal_list", "{}"), Ok(ToolAction::TerminalList)));
    assert!(matches!(execute("session_list", "{}", true), Ok(ToolAction::Session)));
}

#[test]
fn calls_that_cannot_be_made_say_why() {
    let error = |name: &str, args: &str| execute(name, args, false).unwrap_err();
    assert!(error("fly", "{").starts_with("invalid arguments: "));
    assert_eq!(error("fly", "{}"), "unknown tool \"fly\"");
    assert_eq!(error("session_list", "{}"), "session control is unavailable");
    assert_eq!(error("read_file", "{}"), "missing string argument \"path\"");
    assert_eq!(error("search", r#"{"query":""}"#), "query cannot be empty");
    assert_eq!(
        error("write_file", r#"{"path":"a"}"#),
        "missing string argument \"content\""
    );
    assert_eq!(
        error("replace_in_file", r#"{"path":"a","old":"","new":"y"}"#),
        "old cannot be empty"
    );
    assert_eq!(
        error("terminal_input", r#"{"terminal_id":"terminal_1","actions":1}"#),
        "missing array argument \"actions\""
    );
    assert_eq!(
        FileFault::NotDirectory("a".to_owned()).message(),
        "\"a\" is not a directory"
    );
    assert_eq!(
        FileFault::Missing("a".to_owned()).message(),
        "path does not exist: a"
    );
}

#[test]
fn what_came_of_a_call_is_answered() {
    let listed = listing(&vec!["src/".to_owned(), "a.rs".to_owned()], false);
    assert_eq!(listed.get("entries").unwrap().as_array().unwrap().len(), 2);
    assert!(matches!(listed.get("truncated"), Some(Json::Bool(false))));

    let action = execute("read_file", r#"{"path":"a","start_line":2,"end_line":2}"#, false);
    let Ok(ToolAction::ReadFile { args, .. }) = action else {
        panic!("a file has to be read");
    };
    let part = excerpt(&read_file("one\ntwo\nthree", &args));
    assert_eq!(part.get_str("content"), Some("     2 | two"));
    assert_eq!(part.get_u64("total_lines"), Some(3));
    assert_eq!(part.get_u64("start_line"), Some(2));

    let mut found = Vec::new();
    search(Platform::Linux, &mut found, "/root", "/root/a", "one", "one");
    let hits = search_result(&found, false);
    let first = hits.get("matches").unwrap().first().unwrap();
    assert_eq!((first.get_str("path"), first.get_u64("line")), (Some("a"), Some(1)));

    assert_eq!(replaced("a").get_u64("replacements"), Some(1));
    let ended = shell_noninteractive(Some(-1), true, "out".to_owned(), "x".repeat(40_000));
    assert!(matches!(ended.get("timed_out"), Some(Json::Bool(true))));
    assert_eq!(ended.get_str("stdout"), Some("out"));
    assert!(ended.get_str("stderr").unwrap().len() < 31_000);
}
