use codecrab::answers::{close, close_all, shell, terminal_observation_value};
use codecrab::json::{parse_json, Json};
use codecrab::keys::{
    parse_action, parse_key, parse_modifiers, parse_mouse_button, KeyCode, KeyModifiers, MouseArea,
    MouseButton, MouseEventKind, TerminalAction,
};
use codecrab::paths::Platform;
use codecrab::screen::{
    is_blank_screen_line, screen_fingerprint, snapshot, tail_chars, terminal_style, transcript,
    visible_from, CellAttributes, CellLine, EmulatedScreen, ObservationClassification, PrintedCell,
    PrintedLine, ScreenCell, TerminalProcessState, TerminalRecord, TerminalScreenLine,
    TerminalStyle, TerminalStyleSpan,
};
use codecrab::shell::{
    detect_shell, find_executable, parent_shell_name, platform_shell, processes_to_end,
    session_processes, shell_kind, ProcessEntry, ShellKind, ShellSpec, ShellsFound,
};
use codecrab::terminal::{
    check_command, check_live, classify_observation, next_terminal_id, state_name, terminal_number,
    ManagerState, Watch, WatchStep, MAX_TERMINALS_PER_SESSION, SCREEN_STABILITY,
};
use codecrab::answers::{list, list_processes};
use codecrab::keys::check_actions;

fn record(id: &str, state: TerminalProcessState) -> TerminalRecord {
    TerminalRecord {
        id: id.to_owned(),
        command: "wait".to_owned(),
        shell: "shell".to_owned(),
        working_directory: "/work".to_owned(),
        created_at: 1,
        updated_at: 1,
        completed_at: None,
        columns: 120,
        rows: 40,
        state,
        exit_code: None,
        latest_snapshot: None,
        latest_observation: ObservationClassification::Unchanged,
        recent_transcript: "waiting".to_owned(),
    }
}

#[test]
fn observation_classifications_cover_unchanged_stable_and_deadline_states() {
    assert_eq!(
        classify_observation(false, 0, false),
        ObservationClassification::Unchanged
    );
    assert_eq!(
        classify_observation(true, SCREEN_STABILITY, false),
        ObservationClassification::ChangedThenStabilized
    );
    assert_eq!(
        classify_observation(true, SCREEN_STABILITY / 2, false),
        ObservationClassification::StillChangingAtDeadline
    );
    assert_eq!(
        classify_observation(true, 0, true),
        ObservationClassification::ChangedThenStabilized
    );
}

#[test]
fn semantic_keys_and_modifiers_are_validated() {
    assert_eq!(parse_key("ArrowUp").unwrap(), KeyCode::UpArrow);
    assert_eq!(parse_key("Character:ñ").unwrap(), KeyCode::Char('ñ'));
    assert!(parse_key("Character:ab").is_err());
    assert_eq!(parse_key("F+12").unwrap(), KeyCode::Function(12));
    assert_eq!(
        parse_key("Fx").unwrap_err().message(),
        "invalid function key \"Fx\": invalid digit found in string"
    );
    assert_eq!(
        parse_key("F256").unwrap_err().message(),
        "invalid function key \"F256\": number too large to fit in target type"
    );
    assert_eq!(
        parse_key("F25").unwrap_err().message(),
        "function key must be between F1 and F24"
    );
    assert_eq!(
        parse_modifiers(Some(&parse_json(r#"["Ctrl", "Shift"]"#).unwrap())).unwrap(),
        KeyModifiers { shift: true, alt: false, ctrl: true, command: false }
    );
    assert!(parse_modifiers(Some(&parse_json(r#"["Hyper"]"#).unwrap())).is_err());
    assert!(parse_modifiers(Some(&parse_json("3").unwrap())).is_err());
}

#[test]
fn restored_running_terminals_become_interrupted_inspectable_and_continue_the_counter() {
    let mut manager = ManagerState::new();
    let records = vec![record("terminal_7", TerminalProcessState::Running)];
    let next = next_terminal_id(&records).max(1);
    manager.restore(records, 1, 5);

    assert_eq!(next, 8);
    let kept = manager.persisted_records();
    assert_eq!(kept[0].state, TerminalProcessState::Interrupted);
    assert_eq!(manager.begin_start().unwrap(), "terminal_8");
    manager.finish_start(None);
    assert!(manager.inspect("terminal_7", 9));
    let kept = manager.persisted_records();
    let inspected = terminal_observation_value(kept[0], Json::Null);
    assert_eq!(inspected.get_str("state"), Some("interrupted"));
    assert_eq!(inspected.get_str("recent_transcript"), Some("waiting"));
    assert!(!manager.inspect("terminal_9", 9));
}

#[test]
fn concurrent_starts_enforce_the_live_terminal_limit() {
    let mut manager = ManagerState::new();
    for _ in 0..MAX_TERMINALS_PER_SESSION {
        manager.begin_start().unwrap();
    }
    assert!(manager.begin_start().is_err());
    manager.finish_start(None);
    assert_eq!(manager.begin_start().unwrap(), "terminal_9");
}

#[test]
fn terminal_ids_keep_their_numbers() {
    assert_eq!(terminal_number("terminal_12"), 12);
    assert_eq!(terminal_number("terminal_x"), u64::MAX);
    assert_eq!(terminal_number("other_3"), u64::MAX);
    assert_eq!(next_terminal_id(&Vec::new()), 1);
    assert_eq!(state_name(TerminalProcessState::Closed), "closed");
    assert_eq!(
        check_live("terminal_1", TerminalProcessState::Exited).unwrap_err(),
        "terminal \"terminal_1\" is exited; only running terminals accept this operation"
    );
    assert!(check_live("terminal_1", TerminalProcessState::Running).is_ok());
    assert_eq!(check_command(" \t").unwrap_err(), "command cannot be empty");
}

#[test]
fn a_watched_terminal_ends_when_it_is_stable_or_over() {
    let mut watch = Watch::begin(false, 3, 3);
    assert!(matches!(watch.observe(false, 3, 900, false), WatchStep::Wait));
    assert!(matches!(watch.observe(false, 4, 10, false), WatchStep::Wait));
    assert!(!matches!(watch.observe(false, 4, 300, false), WatchStep::Wait));
    assert_eq!(
        watch.outcome(300, false),
        ObservationClassification::ChangedThenStabilized
    );
}

#[test]
fn answers_tell_ended_commands_from_running_ones() {
    let mut ended = record("terminal_1", TerminalProcessState::Exited);
    ended.exit_code = Some(0);
    let answer = shell(&ended, Json::Null);
    assert_eq!(answer.get_u64("exit_code"), Some(0));
    assert_eq!(answer.get_str("text"), Some("waiting"));
    assert_eq!(answer.get_str("observation"), Some("unchanged"));
    assert!(answer.get("terminal_id").is_none());
    let running = record("terminal_2", TerminalProcessState::Running);
    let answer = shell(&running, Json::Bool(true));
    assert_eq!(answer.get_str("terminal_id"), Some("terminal_2"));
    assert_eq!(answer.get_str("command"), Some("wait"));
    assert!(matches!(answer.get("screen"), Some(Json::Bool(true))));
    let closed = close(&record("terminal_3", TerminalProcessState::Closed));
    assert_eq!(closed.get_str("state"), Some("closed"));
    assert!(matches!(closed.get("exit_code"), Some(Json::Null)));
    assert_eq!(
        close_all(&vec![Ok(()), Err("first".to_owned()), Err("second".to_owned())]),
        Err("first".to_owned())
    );
    assert_eq!(close_all(&vec![Ok(())]), Ok(()));
}

fn plain() -> TerminalStyle {
    terminal_style(&attributes(false))
}

fn attributes(bold: bool) -> CellAttributes {
    CellAttributes {
        foreground: "PaletteIndex(1)".to_owned(),
        background: "Default".to_owned(),
        intensity: if bold { "Bold".to_owned() } else { "Normal".to_owned() },
        italic: false,
        underline: "None".to_owned(),
        reverse: false,
        strikethrough: false,
        invisible: false,
    }
}

fn cells(text: &str, style: &TerminalStyle, wrapped: bool) -> CellLine {
    CellLine {
        cells: text
            .chars()
            .map(|c| ScreenCell { text: c.to_string(), width: 1, style: style.clone() })
            .collect(),
        wrapped,
    }
}

/// The lines of a screen of `columns` cells, written by text, carriage returns, line feeds and the
/// sequence that clears the rest of a line.
fn written(bytes: &str, columns: usize) -> Vec<String> {
    let mut lines = vec![vec![' '; columns]];
    let mut column = 0;
    let mut rest = bytes;
    while let Some(c) = rest.chars().next() {
        if let Some(behind) = rest.strip_prefix("\x1b[K") {
            let line = lines.last_mut().unwrap();
            for cell in line.iter_mut().skip(column) {
                *cell = ' ';
            }
            rest = behind;
            continue;
        }
        match c {
            '\r' => column = 0,
            '\n' => lines.push(vec![' '; columns]),
            c => {
                lines.last_mut().unwrap()[column] = c;
                column += 1;
            }
        }
        rest = &rest[c.len_utf8()..];
    }
    lines.into_iter().map(|line| line.into_iter().collect()).collect()
}

#[test]
fn transcript_reflects_cursor_rewrites_instead_of_raw_ansi() {
    let style = plain();
    let lines = written("working\rfinished\x1b[K\r\n", 20);

    let text = transcript(&lines.iter().map(|line| cells(line, &style, false)).collect());

    assert_eq!(text, "finished");
    assert!(!text.contains('\x1b'));
}

#[test]
fn snapshots_preserve_styles_alt_screen_cursor_and_negotiated_modes() {
    let bold = terminal_style(&attributes(true));
    let screen = EmulatedScreen {
        sequence: 3,
        rows: 4,
        columns: 20,
        lines: vec![cells("red", &bold, false)],
        cursor_x: 3,
        cursor_y: 0,
        cursor_shape: "Default".to_owned(),
        cursor_visibility: "Hidden".to_owned(),
        alternate_screen: true,
        title: String::new(),
        mouse_reporting: true,
        bracketed_paste: true,
    };
    let snapshot = snapshot(
        "terminal_1",
        "demo",
        &screen,
        TerminalProcessState::Running,
        None,
        ObservationClassification::ChangedThenStabilized,
        "red".to_owned(),
    );

    assert!(snapshot.alternate_screen);
    assert!(!snapshot.cursor.visible);
    assert!(snapshot.mouse_reporting);
    assert!(snapshot.bracketed_paste);
    assert_eq!(snapshot.lines[0].spans[0].text, "red");
    assert!(snapshot.lines[0].spans[0].style.bold);
    assert!(snapshot.lines[0].spans[0]
        .style
        .foreground
        .contains("PaletteIndex(1)"));
}

#[test]
fn blank_lines_and_long_texts_are_cut() {
    let line = |text: &str| TerminalScreenLine {
        spans: vec![TerminalStyleSpan { text: text.to_owned(), style: plain() }],
        wrapped: false,
    };
    assert!(is_blank_screen_line(&line("   ")));
    assert!(!is_blank_screen_line(&line(" x ")));
    assert_eq!(
        tail_chars("abcdef".to_owned(), 3),
        "… transcript truncated …\ndef"
    );
    assert_eq!(tail_chars("ab".to_owned(), 3), "ab");
}

#[test]
fn fingerprints_change_with_every_cell() {
    let screen = |text: &str, wrapped: bool| {
        vec![PrintedLine {
            cells: vec![PrintedCell { text: text.to_owned(), attributes: "[]".to_owned() }],
            wrapped,
        }]
    };
    assert_eq!(screen_fingerprint(&screen("a", false), "0:0"), "a[]\n\u{1}0:0");
    assert_eq!(screen_fingerprint(&screen("a", true), "0:0"), "a[]\u{0}\u{1}0:0");
    assert_eq!(visible_from(100, 40), 60);
    assert_eq!(visible_from(10, 40), 0);
}

#[test]
fn actions_are_read_from_their_arguments() {
    let area = MouseArea { grabbed: true, rows: 10, columns: 20 };
    let action = |text: &str| parse_action(&parse_json(text).unwrap(), area);
    assert!(matches!(action(r#"{"type":"text","text":"ls"}"#), Ok(TerminalAction::Text(t)) if t == "ls"));
    match action(r#"{"type":"mouse","action":"press","button":"left","row":3,"column":2}"#) {
        Ok(TerminalAction::Mouse { kind, button, .. }) => {
            assert_eq!((kind, button), (MouseEventKind::Press, MouseButton::Left))
        }
        other => panic!("{other:?}"),
    }
    assert_eq!(
        action(r#"{"type":"dance"}"#).unwrap_err().message(),
        "unknown terminal action type \"dance\""
    );
    assert_eq!(parse_mouse_button("right").unwrap(), MouseButton::Right);
    assert!(parse_mouse_button("side").is_err());
}

#[test]
fn shells_are_found_and_take_commands_in_their_own_way() {
    assert_eq!(shell_kind(Platform::Linux, "/usr/bin/fish"), ShellKind::Unix);
    let found = ShellsFound {
        environment: Some("/bin/zsh".to_owned()),
        user: None,
        programs: Vec::new(),
        interpreter: None,
    };
    let shell = detect_shell(None, Platform::Linux, &found).unwrap();
    assert_eq!(shell.program, "/bin/zsh");
    assert_eq!(shell.command("ls"), vec!["-lic".to_owned(), "ls".to_owned()]);
    let configured = detect_shell(Some("/opt/pwsh"), Platform::Linux, &found).unwrap();
    assert_eq!(configured.program, "/opt/pwsh");
    let spec = ShellSpec { program: "cmd.exe".to_owned(), kind: ShellKind::Cmd };
    assert_eq!(spec.command("dir").last().map(String::as_str), Some("dir"));
    assert_eq!(
        find_executable(Platform::Linux, "pwsh", false, &vec![("/bin".to_owned(), false), ("/usr/bin".to_owned(), true)]),
        Some("/usr/bin/pwsh".to_owned())
    );
    assert_eq!(find_executable(Platform::Linux, "./pwsh", true, &Vec::new()), Some("./pwsh".to_owned()));
    assert_eq!(find_executable(Platform::Linux, "pwsh", true, &Vec::new()), None);
}

#[test]
fn processes_of_a_session_are_found() {
    let list = vec![
        ProcessEntry { id: 1, parent: 0, name: "init".to_owned() },
        ProcessEntry { id: 5, parent: 1, name: "pwsh.exe".to_owned() },
        ProcessEntry { id: 9, parent: 5, name: "codecrab.exe".to_owned() },
    ];
    assert_eq!(parent_shell_name(&list, 9).as_deref(), Some("pwsh.exe"));
    assert_eq!(parent_shell_name(&list, 1), None);
    assert_eq!(session_processes("10 4\n11 5\n12 4\n", 4, 12), vec![10]);
    assert_eq!(processes_to_end(vec![10], &vec![10, 13]), vec![10, 13]);
}

#[test]
fn lists_of_terminals_say_when_they_began() {
    let mut ended = record("terminal_2", TerminalProcessState::Exited);
    ended.created_at = 1_754_000_000_000_000_000;
    ended.updated_at = 1_754_000_000_250_000_000;
    ended.completed_at = Some(1_754_000_001_000_000_000);
    ended.exit_code = Some(3);
    let value = list(&vec![&ended]);
    let shown = value.get("terminals").unwrap().first().unwrap();
    assert_eq!(shown.get_str("created_at"), Some("2025-07-31T22:13:20Z"));
    assert_eq!(shown.get_str("updated_at"), Some("2025-07-31T22:13:20.250Z"));
    assert_eq!(shown.get_str("completed_at"), Some("2025-07-31T22:13:21Z"));
    assert_eq!(shown.get_str("state"), Some("exited"));
    assert_eq!(shown.get_u64("exit_code"), Some(3));
    assert_eq!(shown.get_u64("columns"), Some(120));
    let running = record("terminal_1", TerminalProcessState::Running);
    let summaries = list_processes(&vec![&running]);
    assert_eq!(summaries.len(), 1);
    assert_eq!(summaries[0].terminal_id, "terminal_1");
    assert_eq!(summaries[0].command, "wait");
    assert_eq!(check_actions(&Vec::new()).unwrap_err(), "actions cannot be empty");
    assert!(check_actions(&vec![Json::Null]).is_ok());
}

#[test]
fn the_end_of_a_terminal_stays_as_first_known() {
    let mut manager = ManagerState::new();
    let mut first = record("terminal_1", TerminalProcessState::Exited);
    first.completed_at = Some(5);
    manager.update_record(first);
    let mut later = record("terminal_1", TerminalProcessState::Exited);
    later.completed_at = Some(9);
    manager.update_record(later);
    assert_eq!(manager.persisted_records()[0].completed_at, Some(5));
    manager.forget("terminal_1");
    assert!(manager.persisted_records().is_empty());
    assert_eq!(Watch::begin(true, 0, 0).duration(), 5_000);
}

#[test]
fn shells_of_windows_are_known_by_their_paths() {
    let found = ShellsFound {
        environment: None,
        user: None,
        programs: vec!["C:\\pwsh.exe".to_owned()],
        interpreter: None,
    };
    let shell = platform_shell(Platform::Windows, &found).unwrap();
    assert_eq!(shell.kind, ShellKind::PowerShell);
    assert_eq!(shell_kind(Platform::Windows, "C:\\Windows\\System32\\cmd.exe"), ShellKind::Cmd);
    assert_eq!(
        find_executable(Platform::Windows, "pwsh.exe", false, &vec![("C:\\bin".to_owned(), true)]),
        Some("C:\\bin\\pwsh.exe".to_owned())
    );
}
