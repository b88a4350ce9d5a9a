use codecrab::paths::Platform;
use codecrab::api::{
    cancel_chat, chat_stream_event, check_browsing, check_deleted_job, check_dictation,
    check_extension, check_goal, check_handshake, completed_text, dictation_session,
    metadata_update, new_session_project, plan_turn, recording_type, recursive_completions,
    required_goal_id, required_goal_objective, selected_conversation, set_model, turn_end,
    ApiError, ChatStreamMessage, Purpose, SearchAction, SearchEvent, SessionMetadataUpdate, Status,
    TurnEnd, TurnPlan,
};
use codecrab::catalog::{ModelCatalogEntry, ModelSelection};
use codecrab::changes::{
    activities_reference_change, available_change, check_changes, editor_instance, gone, is_asked,
    referenced_change, DiffFile, DiffList, EditorStatus, Reconstructed,
};
use codecrab::events::{AgentActivity, AgentEvent};
use codecrab::hierarchy::SessionSummary;
use codecrab::ids::id_text;
use codecrab::json::{no_fields, parse_json, set_field, text_value, with_field, with_item, Json};
use codecrab::live::{
    active_terminal_count, begin_following, follow, live_root, live_session, live_session_projects,
    live_summary, synced_sessions, web_session, ConversationLifecycle, FollowAction, FollowEvent, Following,
    ListedProject, LiveEvent, LiveSession, Observation, SessionMarks,
};
use codecrab::message::{Message, Role};
use codecrab::session::{
    FileChange, FileChangeKind, FileChangeSet, Session, TemporaryFileChange, TurnOutcome,
};
use codecrab::screen::{ObservationClassification, TerminalProcessState, TerminalRecord};
use codecrab::shutdown::{
    forcing_message, next, outcome, requests_message, terminals_message, Forcing, Phase,
    ShutdownAction, ShutdownEvent, ShutdownOutcome,
};
use codecrab::tls::{
    configured_host, display_origin, generate_tls_material, served_lines, tls_certificate_params,
    tls_subject_alt_names, BoundAddress, HostAddress,
};
use codecrab::upload::{
    attachment_conversation, check_stored, upload_refusal, OpenSession, SessionScope, Upload,
};
use codecrab::workspace::{
    check_deletion, delete_session, load_catalog, resume_session, snapshot_for, CatalogState,
    ConversationInfo, Replacement, ServerWorkspace, SkillSource, Surroundings,
};
use codecrab::autostart::{installation_view, CronDaemonStatus};
use codecrab::changes::{OpenStep, Opening};
use codecrab::cron::{CronDocument, CronRuntimeState};
use codecrab::overview::{load_document, snapshot, CronSnapshot, DocumentRead};
use rcgen::SanType;

fn names(host: &str, address: HostAddress) -> Vec<String> {
    tls_subject_alt_names(host, address)
}

#[test]
fn https_certificate_parameters_include_local_and_configured_sans() {
    let params = tls_certificate_params("codecrab.local", HostAddress::Name).unwrap();
    let is_name = |san: &SanType, name: &str| matches!(san, SanType::DnsName(n) if n.as_str() == name);
    let is_address =
        |san: &SanType, ip: &str| matches!(san, SanType::IpAddress(a) if a.to_string() == ip);
    assert!(params.subject_alt_names.iter().any(|san| is_name(san, "localhost")));
    assert!(params.subject_alt_names.iter().any(|san| is_name(san, "codecrab.local")));
    assert!(params.subject_alt_names.iter().any(|san| is_address(san, "127.0.0.1")));
    assert!(params.subject_alt_names.iter().any(|san| is_address(san, "::1")));
    let params = tls_certificate_params("192.0.2.10", HostAddress::Address).unwrap();
    assert!(params.subject_alt_names.iter().any(|san| is_address(san, "192.0.2.10")));
    assert_eq!(
        tls_certificate_params("höst", HostAddress::Name).err().unwrap(),
        "cannot configure self-signed HTTPS certificate: Invalid IA5String: 'höst'",
    );
    let configured = names("codecrab.local", HostAddress::Name);
    assert!(configured.contains(&"localhost".to_owned()));
    assert!(configured.contains(&"codecrab.local".to_owned()));
    assert!(configured.contains(&"127.0.0.1".to_owned()));
    assert!(configured.contains(&"::1".to_owned()));
    assert!(names("192.0.2.10", HostAddress::Address).contains(&"192.0.2.10".to_owned()));
    assert!(names(" [2001:db8::1] ", HostAddress::Address).contains(&"2001:db8::1".to_owned()));
    assert!(!names("0.0.0.0", HostAddress::Unspecified).contains(&"0.0.0.0".to_owned()));
    assert!(!names("::", HostAddress::Unspecified).contains(&"::".to_owned()));
    assert_eq!(names("*", HostAddress::Name).len(), 3);
    assert_eq!(names("localhost", HostAddress::Name).len(), 3);
    assert_eq!(configured_host(" [::1] "), "::1");
}

#[test]
fn https_certificate_and_key_are_regenerated_ephemerally() {
    let first = generate_tls_material("127.0.0.1", HostAddress::Address).unwrap();
    let second = generate_tls_material("127.0.0.1", HostAddress::Address).unwrap();

    assert!(!first.certificate_der.is_empty());
    assert!(!first.private_key_der.is_empty());
    assert_ne!(first.certificate_der, second.certificate_der);
    assert_ne!(first.private_key_der, second.private_key_der);
}

#[test]
fn names_that_no_certificate_can_hold_are_refused() {
    let refused = generate_tls_material("höst", HostAddress::Name);
    assert_eq!(
        refused.err().unwrap(),
        "cannot configure self-signed HTTPS certificate: Invalid IA5String: 'höst'",
    );
}

#[test]
fn origins_lead_to_the_machine_itself() {
    let bound = |ip: &str, v6: bool, unspecified: bool| BoundAddress {
        ip: ip.to_owned(),
        v6,
        unspecified,
        port: 8080,
    };
    assert_eq!(display_origin("http", &bound("0.0.0.0", false, true)), "http://127.0.0.1:8080");
    assert_eq!(display_origin("https", &bound("::", true, true)), "https://[::1]:8080");
    assert_eq!(display_origin("http", &bound("10.0.0.7", false, false)), "http://10.0.0.7:8080");
    assert_eq!(served_lines("http://a", "https://b")[3], "HTTPS Web: https://b/");
}

fn session() -> Session {
    Session::create_for_provider("default".to_owned(), "test-model".to_owned())
}

fn fields_of(session: &Session) -> Vec<(String, Json)> {
    let fields = with_field(no_fields(), "id", text_value(&id_text(session.id)));
    let fields = with_field(fields, "title", text_value(&session.title));
    with_field(fields, "updated_at", text_value("then"))
}

fn texts(messages: &[Message]) -> Json {
    let mut items = Vec::new();
    for message in messages {
        let fields = with_field(
            no_fields(),
            "content",
            text_value(message.content.as_deref().unwrap_or_default()),
        );
        items = with_item(items, Json::Object(fields));
    }
    Json::Array(items)
}

fn ids(list: &[u128]) -> Json {
    Json::Array(list.iter().map(|id| text_value(&id_text(*id))).collect())
}

#[test]
fn web_sessions_expose_the_active_projection_alongside_the_tree() {
    let mut session = session();
    session
        .messages
        .push(Message::text(Role::User, "Inspect the tree"));
    let nodes: Vec<u128> = session
        .messages
        .visible_user_nodes()
        .iter()
        .map(|node| node.id)
        .collect();

    let value = Json::Object(web_session(
        fields_of(&session),
        None,
        texts(session.messages.messages()),
        ids(session.messages.active_node_ids()),
        ids(&nodes),
    ));
    assert_eq!(value.get("messages").unwrap().as_array().unwrap().len(), 1);
    assert_eq!(value.get("active_message_ids").unwrap().as_array().unwrap().len(), 1);
    assert_eq!(value.get("branch_nodes").unwrap().as_array().unwrap().len(), 1);
    assert_eq!(
        value.get("messages").unwrap().first().unwrap().get_str("content"),
        Some("Inspect the tree")
    );
    assert_eq!(value.get_str("title"), Some("New session"));
}

#[test]
fn live_web_sessions_override_stale_transcript_and_activity_state() {
    let session = session();
    let activity = AgentActivity::started(
        "delegated-read".to_owned(),
        5,
        0,
        1,
        "read_file",
        r#"{"path":"src/main.rs"}"#,
    );
    let told = with_field(no_fields(), "id", text_value(&activity.id));
    let told = with_field(told, "detail", text_value(&activity.detail));
    let observation = |lifecycle: ConversationLifecycle| Observation {
        lifecycle,
        title: text_value("Live delegated title"),
        updated_at: text_value("now"),
        messages: texts(&[Message::text(Role::User, "Live delegated title")]),
        activities: Json::Array(vec![Json::Object(
            told.iter().map(|(name, value)| (name.clone(), value.copy())).collect(),
        )]),
    };

    let value = Json::Object(web_session(
        fields_of(&session),
        Some(observation(ConversationLifecycle::Running)),
        texts(&[]),
        ids(&[]),
        ids(&[]),
    ));
    assert_eq!(value.get_str("title"), Some("Live delegated title"));
    assert_eq!(
        value.get("messages").unwrap().first().unwrap().get_str("content"),
        Some("Live delegated title")
    );
    let shown = value.get("activities").unwrap().first().unwrap();
    assert_eq!(shown.get_str("id"), Some("delegated-read"));
    assert_eq!(shown.get_str("detail"), Some("src/main.rs"));
    let idle = Json::Object(web_session(
        fields_of(&session),
        Some(observation(ConversationLifecycle::Idle)),
        texts(&[]),
        ids(&[]),
        ids(&[]),
    ));
    assert_eq!(idle.get_str("title"), Some("New session"));
}

#[test]
fn set_fields_read_back_and_leave_the_others() {
    let fields = with_field(no_fields(), "a", text_value("1"));
    let fields = with_field(fields, "c", text_value("3"));
    let fields = set_field(fields, "b", text_value("2"));
    let fields = set_field(fields, "a", text_value("one"));
    let names: Vec<&str> = fields.iter().map(|(name, _)| name.as_str()).collect();
    assert_eq!(names, vec!["a", "b", "c"]);
    let value = Json::Object(fields);
    assert_eq!(value.get_str("a"), Some("one"));
    assert_eq!(value.get_str("b"), Some("2"));
    assert_eq!(value.get_str("c"), Some("3"));
}

#[test]
fn session_stream_sync_bootstraps_selected_views_without_idle_transcript_fanout() {
    let selected = 1;
    let idle = ConversationLifecycle::Idle;
    assert_eq!(synced_sessions(Some(selected), &vec![(1, idle), (2, idle)]), vec![1]);
    assert_eq!(
        synced_sessions(None, &vec![(1, idle), (2, ConversationLifecycle::Stopping)]),
        vec![2]
    );
}

#[test]
fn followers_are_sent_what_happens() {
    let (at, action) = begin_following();
    assert_eq!(action, FollowAction::SendAll);
    let (at, action) = follow(at, FollowEvent::Sent);
    assert_eq!((at, action), (Following::Waiting, FollowAction::Wait));
    let (listing, action) = follow(at, FollowEvent::Happened(LiveEvent::Snapshot));
    assert_eq!(action, FollowAction::SendList);
    let (sending, action) = follow(listing, FollowEvent::Sent);
    assert_eq!(action, FollowAction::SendSession);
    assert_eq!(follow(sending, FollowEvent::Missing), (Following::Waiting, FollowAction::Wait));
    assert_eq!(follow(listing, FollowEvent::Missing).1, FollowAction::Wait);
    assert_eq!(follow(at, FollowEvent::Lagged).1, FollowAction::SendAll);
    assert_eq!(follow(sending, FollowEvent::Unsent).1, FollowAction::Stop);
    assert_eq!(follow(Following::Beginning, FollowEvent::Missing).1, FollowAction::Stop);
}

fn listed(id: u128, title: &str) -> SessionSummary {
    let mut session = session();
    session.id = id;
    live_summary(&session, title.to_owned(), 9)
}

#[test]
fn open_sessions_stand_in_the_place_of_saved_ones() {
    let projects = vec![ListedProject {
        root: Some("/a".to_owned()),
        sessions: vec![listed(1, "saved"), listed(2, "other")],
    }];
    let live = |scope: SessionScope, root: &str, id: u128| -> LiveSession {
        let mut session = session();
        session.id = id;
        for state in [TerminalProcessState::Running, TerminalProcessState::Interrupted] {
            session.terminals.push(TerminalRecord {
                id: "terminal_1".to_owned(),
                command: "wait".to_owned(),
                shell: "shell".to_owned(),
                working_directory: "/work".to_owned(),
                created_at: 1,
                updated_at: 1,
                completed_at: None,
                columns: 120,
                rows: 40,
                state,
                exit_code: None,
                latest_snapshot: None,
                latest_observation: ObservationClassification::Unchanged,
                recent_transcript: String::new(),
            });
        }
        let kept =
            SessionMarks { manual_title: true, pinned_at: Some(4), archived_at: None };
        live_session(&session, scope, root.to_owned(), "live".to_owned(), 9, kept)
    };
    let one = live(SessionScope::Project, "/a", 1);
    assert_eq!(one.marks.kept.pinned_at, Some(4));
    assert!(one.marks.kept.manual_title && one.marks.kept.archived_at.is_none());
    assert!(!one.marks.archived_by_ancestor && !one.marks.shortcut);
    assert!(one.marks.ancestor_titles.is_empty());
    assert_eq!(one.marks.active_terminal_count, 1);
    assert_eq!((one.summary.updated_at, one.summary.title.as_str()), (9, "live"));
    let merged = live_session_projects(
        projects,
        vec![
            live(SessionScope::Project, "/a", 1),
            live(SessionScope::Project, "/b", 3),
            live(SessionScope::NoProject, "/ignored", 4),
        ],
    );
    assert_eq!(merged.len(), 3);
    let title = |project: usize, id: u128| {
        merged[project]
            .sessions
            .iter()
            .find(|session| session.id == id)
            .unwrap()
            .title
            .clone()
    };
    assert_eq!((title(0, 1).as_str(), title(0, 2).as_str()), ("live", "other"));
    assert_eq!(merged[1].root.as_deref(), Some("/b"));
    assert_eq!(merged[2].root, None);
    assert_eq!(active_terminal_count(&Vec::new()), 0);
    assert_eq!(live_root(SessionScope::NoProject, "/x".to_owned()), None);
}

#[test]
fn observed_activity_authorizes_its_change_before_the_turn_snapshot_finishes() {
    let session = session();
    let change_id = 42;
    let mut activity = AgentActivity::started(
        "call-write".to_owned(),
        5,
        0,
        0,
        "write_file",
        r#"{"path":"note.txt","content":"updated"}"#,
    );
    activity.live_change_id = Some(change_id);

    assert!(session.file_changes.is_empty());
    assert!(session.activities.is_empty());
    let live = vec![activity];
    assert!(activities_reference_change(&live, change_id));
    assert!(!activities_reference_change(&Vec::new(), change_id));
    assert!(matches!(
        referenced_change(&session.file_changes, &session.activities, &live, change_id),
        Ok(None)
    ));
    let refused = referenced_change(&session.file_changes, &session.activities, &Vec::new(), 1);
    let refused = refused.unwrap_err();
    assert_eq!(refused.status, Status::NotFound);
    assert_eq!(refused.error, "file change is not part of this session");
}

fn change(path: &str, outcome: Option<TurnOutcome>) -> FileChangeSet {
    FileChangeSet {
        id: 1,
        turn_message_id: 2,
        activity_id: None,
        kind: FileChangeKind::Turn,
        outcome,
        unavailable_reason: None,
        files: vec![FileChange::Temporary(TemporaryFileChange {
            path: path.to_owned(),
            before: String::new(),
            after: String::new(),
        })],
    }
}

fn diff(path: &str, changed_lines: usize) -> DiffFile {
    DiffFile {
        path: path.to_owned(),
        before: String::new(),
        after: String::new(),
        focus_line: 1,
        changed_lines,
    }
}

#[test]
fn changes_are_listed_with_the_largest_first() {
    let mut list = DiffList::new();
    assert_eq!(list.title, "Operation changes");
    let files = vec![diff("a", 1), diff("b", 5), diff("c", 5)];
    list.take(
        Platform::Linux,
        &change("/p/a", Some(TurnOutcome::Cancelled)),
        Ok(Reconstructed { kind: FileChangeKind::Turn, files }),
        "/p",
        true,
    )
    .unwrap();
    assert_eq!(list.title, "Changes before cancellation");
    let shown = list.ordered();
    let paths: Vec<&str> = shown.files.iter().map(|file| file.path.as_str()).collect();
    assert_eq!(paths, vec!["b", "c", "a"]);
}

#[test]
fn changes_that_are_gone_say_why() {
    let told = |path: &str, git: bool| gone(Platform::Linux, &change(path, None), "/p", git, "lost".to_owned());
    assert_eq!(told("/p/a", true).status, Status::Gone);
    assert!(told("/p/a", true).error.starts_with("Historical diffs require Git."));
    assert!(told("/p/a", false).error.starts_with("Git is unavailable."));
    assert!(told("/q/a", true).error.contains("outside the selected project"));
    let mut kept = change("/p/a", None);
    kept.files.clear();
    assert_eq!(gone(Platform::Linux, &kept, "/p", true, "lost".to_owned()).error, "lost");
    assert_eq!(
        available_change(None, None).unwrap_err().error,
        "file change is not available yet"
    );
    assert_eq!(available_change(None, Some(kept)).unwrap().id, 1);
    assert_eq!(
        check_changes(&Vec::new()).unwrap_err().error,
        "at least one file change is required"
    );
}

#[test]
fn editors_show_changes_only_while_they_run() {
    assert_eq!(editor_instance(EditorStatus::Ready { instance_id: 3 }).ok(), Some(3));
    assert_eq!(editor_instance(EditorStatus::Starting { instance_id: 4 }).ok(), Some(4));
    let failed = editor_instance(EditorStatus::Failed { message: "boom".to_owned() }).unwrap_err();
    assert_eq!((failed.status.code(), failed.error.as_str()), (503, "boom"));
    assert_eq!(
        editor_instance(EditorStatus::Closed).unwrap_err().error,
        "code-server did not start"
    );
    assert!(is_asked(true, "/p", SessionScope::NoProject, "/q"));
    assert!(is_asked(false, "/p", SessionScope::Project, "/p"));
    assert!(!is_asked(false, "/p", SessionScope::Project, "/q"));
}

#[test]
fn second_shutdown_signal_forces_a_server_with_an_active_request() {
    let (phase, action) = next(Phase::Serving, ShutdownEvent::Signal(Ok(())));
    assert!(matches!(action, ShutdownAction::Drain));
    let (phase, action) = next(phase, ShutdownEvent::Elapsed { terminals: 0, turns: 0 });
    assert!(matches!(action, ShutdownAction::WarnRequests));
    let (phase, action) = next(phase, ShutdownEvent::Signal(Ok(())));
    assert!(matches!(action, ShutdownAction::Force(Forcing::Requests)));
    assert_eq!(outcome(&action), Some(ShutdownOutcome::Forced));
    assert_eq!(phase, Phase::Over);
    assert!(requests_message().starts_with("CodeCrab is still shutting down"));
}

#[test]
fn a_server_ends_after_its_terminals_and_turns() {
    let ended = ShutdownEvent::Ended { result: Ok(()), terminals: 2 };
    let (phase, action) = next(Phase::Draining, ended);
    assert!(matches!(action, ShutdownAction::WarnTerminals));
    assert!(terminals_message().contains("managed terminals"));
    let (phase, action) = next(phase, ShutdownEvent::Elapsed { terminals: 1, turns: 0 });
    assert!(matches!(action, ShutdownAction::Wait));
    let (phase, action) = next(phase, ShutdownEvent::Elapsed { terminals: 0, turns: 1 });
    assert!(matches!(action, ShutdownAction::CancelTurns));
    let (phase, action) = next(phase, ShutdownEvent::Elapsed { terminals: 0, turns: 0 });
    assert!(matches!(action, ShutdownAction::Finish));
    assert_eq!(phase, Phase::Over);
    let (_, action) = next(
        Phase::Serving,
        ShutdownEvent::Ended { result: Err("port".to_owned()), terminals: 0 },
    );
    assert!(matches!(action, ShutdownAction::Fail(m) if m == "port"));
    assert_eq!(
        forcing_message(Forcing::Terminals),
        "Forcing CodeCrab to exit after stopping managed terminals."
    );
}

#[test]
fn requests_without_a_session_are_refused() {
    assert_eq!(selected_conversation(Purpose::SendMessage, None, Some(3), &vec![3]).ok(), Some(3));
    assert_eq!(selected_conversation(Purpose::SendMessage, Some(4), Some(3), &vec![3, 4]).ok(), Some(4));
    let refused = selected_conversation(Purpose::ChangeModel, Some(4), Some(3), &vec![3]).unwrap_err();
    assert_eq!(
        (refused.status.code(), refused.error.as_str()),
        (409, "create or resume a session before changing the model")
    );
    let refused = selected_conversation(Purpose::ListProcesses, None, None, &Vec::new()).unwrap_err();
    assert_eq!(refused.status.code(), 500);
    assert_eq!(cancel_chat(None, Some(3), &vec![3]), Some(3));
    assert_eq!(cancel_chat(Some(5), Some(3), &vec![3]), None);
    let (code, body) = ApiError::message(Status::NotFound, "API endpoint not found").response();
    assert_eq!((code, body.get_str("error")), (404, Some("API endpoint not found")));
}

#[test]
fn goals_need_an_id_and_something_to_reach() {
    assert_eq!(required_goal_id(Some(4)).ok(), Some(4));
    assert_eq!(required_goal_id(None).unwrap_err().error, "goal id is required");
    assert_eq!(required_goal_objective(Some("  reach it ")).unwrap(), "reach it");
    assert_eq!(required_goal_objective(None).unwrap_err().error, "goal objective is required");
    assert_eq!(required_goal_objective(Some(" ")).unwrap_err().error, "goal objective is required");
    assert!(required_goal_objective(Some(&"é".repeat(4_000))).is_ok());
    assert_eq!(
        required_goal_objective(Some(&"é".repeat(4_001))).unwrap_err().error,
        "goal objective cannot exceed 4,000 characters"
    );
    assert_eq!(check_goal(false).unwrap_err().status, Status::NotFound);
}

#[test]
fn turns_begin_with_what_is_asked() {
    assert!(matches!(plan_turn(" hi ", false, None), Ok(TurnPlan::Send(p)) if p == "hi"));
    assert!(matches!(plan_turn("", true, None), Ok(TurnPlan::Continue)));
    assert!(matches!(
        plan_turn("x", false, Some(8)),
        Ok(TurnPlan::Edit { node_id: 8, .. })
    ));
    assert_eq!(plan_turn(" ", false, None).unwrap_err().error, "prompt is empty");
    assert_eq!(
        plan_turn("x", true, Some(8)).unwrap_err().error,
        "goal continuation cannot edit a message"
    );
    assert!(matches!(turn_end(Ok(Ok(Ok(()))), false), TurnEnd::Done));
    assert!(matches!(turn_end(Ok(Ok(Err("stop".to_owned()))), true), TurnEnd::Cancelled));
    assert!(matches!(
        turn_end(Err("panic".to_owned()), false),
        TurnEnd::Error(m) if m == "conversation turn task failed: panic"
    ));
}

#[test]
fn models_are_chosen_from_the_catalog() {
    let selection = |model: &str, effort: Option<&str>, tier: Option<&str>| ModelSelection {
        model: model.to_owned(),
        reasoning_effort: effort.map(str::to_owned),
        service_tier: tier.map(str::to_owned),
    };
    let models = vec![ModelCatalogEntry::from_id("known".to_owned())];
    assert!(set_model(&models, selection("known", None, None)).is_ok());
    assert!(set_model(&Vec::new(), selection("any", Some("high"), None)).is_ok());
    let error = |s: ModelSelection| set_model(&models, s).unwrap_err().error;
    assert_eq!(error(selection("other", None, None)), "model is not in the provider catalog");
    assert_eq!(
        error(selection("known", Some("high"), None)),
        "reasoning effort is not supported by this model"
    );
    assert_eq!(
        error(selection("known", None, Some("fast"))),
        "service tier is not supported by this model"
    );
}

#[test]
fn new_web_session_targets_the_requested_project_exactly() {
    assert_eq!(new_session_project(Some("/p".to_owned()), false).unwrap(), Some("/p".to_owned()));
    assert_eq!(new_session_project(None, false).unwrap_err().error, "project is required");
    assert_eq!(
        new_session_project(Some("/p".to_owned()), true).unwrap_err().error,
        "project and no_project cannot both be set"
    );
}

#[test]
fn new_web_session_can_enter_no_project_mode() {
    assert_eq!(new_session_project(None, true).unwrap(), None);
    let mut workspace = ServerWorkspace::new("/start".to_owned());
    workspace.install_conversation("/run".to_owned(), SessionScope::NoProject, 6);
    assert!(!workspace.project_selected);
    assert_eq!(workspace.selected_session, Some(6));
}

#[test]
fn opening_an_empty_project_persists_it_without_creating_a_session() {
    let mut workspace = ServerWorkspace::new("/start".to_owned());
    workspace.install_conversation("/run".to_owned(), SessionScope::Project, 6);
    workspace.open_project("/empty".to_owned());
    assert_eq!(workspace.root, "/empty");
    assert!(workspace.project_selected);
    assert_eq!(workspace.selected_session, None);
}

#[test]
fn deleting_the_active_web_session_selects_the_next_or_leaves_none() {
    let listed = vec![1, 2, 3];
    assert_eq!(delete_session(Some(2), 2, &listed, &vec![1, 3]), Replacement::Session(3));
    assert_eq!(delete_session(Some(3), 3, &listed, &vec![1, 2]), Replacement::Session(2));
    assert_eq!(delete_session(Some(1), 1, &vec![1], &Vec::new()), Replacement::Nothing);
    assert_eq!(delete_session(Some(1), 2, &listed, &vec![1, 3]), Replacement::Unchanged);
    let refused = check_deletion(Some(2), false).unwrap_err();
    assert_eq!(
        refused.error,
        "confirm stopping active processes before deleting this session"
    );
    assert_eq!(check_deletion(Some(2), true).ok(), Some(true));
    assert_eq!(check_deletion(None, false).ok(), Some(false));
    let plan = resume_session(Some(1), 2, &vec![2]);
    assert_eq!((plan.leaves, plan.is_open), (Some(1), true));
}

fn surroundings(
    cron: Result<CronSnapshot, String>,
) -> Surroundings<u32, Vec<&'static str>, Vec<u128>> {
    Surroundings {
        live_revision: 3,
        filesystem_root: "/".to_owned(),
        projects: Vec::new(),
        commands: vec!["/goal".to_owned()],
        usage: Some(40),
        providers: vec!["openai"],
        workers: vec![7],
        dictation: Some(true),
        cron,
    }
}

fn conversation_at(root: &str) -> ConversationInfo {
    ConversationInfo {
        project_root: root.to_owned(),
        scope: SessionScope::Project,
        model_catalog: vec![ModelCatalogEntry::from_id("own".to_owned())],
        session: Vec::new(),
    }
}

fn no_jobs() -> CronSnapshot {
    snapshot(
        "/cron.json".to_owned(),
        load_document(
            Platform::Linux,
            "/cron.json",
            DocumentRead::Read(CronDocument::empty("Europe/Berlin".to_owned())),
        ),
        Ok(CronRuntimeState::new()),
        Ok(CronDaemonStatus::Stopped),
        Ok(installation_view(CronDaemonStatus::Stopped, None, false)),
        0,
    )
    .unwrap()
}

#[test]
fn what_is_shown_follows_the_open_conversation() {
    let mut workspace = ServerWorkspace::new("/start".to_owned());
    workspace.open_project("/p".to_owned());
    let shown = snapshot_for(&workspace, None, Vec::new(), Vec::new(), surroundings(Ok(no_jobs())));
    assert_eq!(shown.project.as_deref(), Some("/p"));
    assert_eq!(shown.skills, SkillSource::Project);
    assert!(!shown.dictation_available);
    assert!(shown.usage.is_none());
    assert!(shown.session.is_none());
    assert!(shown.cron.is_some_and(|cron| cron.jobs.is_empty() && cron.path == "/cron.json"));
    assert!(shown.cron_error.is_none());
    let known = CatalogState { models: Vec::new(), error: Some("offline".to_owned()) };
    let shown = snapshot_for(
        &workspace,
        Some(5),
        vec![(4, conversation_at("/other")), (5, conversation_at("/c"))],
        vec![(5, known)],
        surroundings(Ok(no_jobs())),
    );
    assert_eq!((shown.root.as_str(), shown.project.as_deref()), ("/c", Some("/c")));
    assert!(shown.models.is_empty());
    assert_eq!(shown.catalog_error.as_deref(), Some("offline"));
    assert_eq!(shown.skills, SkillSource::Conversation);
    assert!(shown.dictation_available);
    assert_eq!(shown.usage, Some(40));
    assert!(shown.session.is_some());
    assert_eq!(shown.filesystem_root, "/");
    assert_eq!((shown.providers, shown.workers, shown.live_revision), (vec!["openai"], vec![7], 3));
}

#[test]
fn a_session_that_is_asked_for_goes_before_the_selected_one() {
    let mut workspace = ServerWorkspace::new("/start".to_owned());
    workspace.install_conversation("/one".to_owned(), SessionScope::Project, 1);
    let open = || vec![(1, conversation_at("/one")), (2, conversation_at("/two"))];
    let around = || surroundings(Ok(no_jobs()));
    assert_eq!(snapshot_for(&workspace, None, open(), Vec::new(), around()).root, "/one");
    assert_eq!(snapshot_for(&workspace, Some(2), open(), Vec::new(), around()).root, "/two");
}

#[test]
fn invalid_cron_json_does_not_break_the_rest_of_web_state() {
    let root = "/project";
    let mut workspace = ServerWorkspace::new(root.to_owned());
    workspace.install_conversation(root.to_owned(), SessionScope::Project, 1);
    let error = match parse_json("{invalid") {
        Ok(_) => panic!("the text is no JSON"),
        Err(error) => error,
    };
    let cron = snapshot(
        "/project/test-cron.json".to_owned(),
        load_document(Platform::Linux, "/project/test-cron.json", DocumentRead::Invalid(error)),
        Ok(CronRuntimeState::new()),
        Ok(CronDaemonStatus::Stopped),
        Ok(installation_view(CronDaemonStatus::Stopped, None, false)),
        0,
    );

    let response = snapshot_for(
        &workspace,
        None,
        vec![(1, conversation_at(root))],
        Vec::new(),
        surroundings(cron),
    );

    assert!(response.cron.is_none());
    assert!(response.cron_error.unwrap().contains("not valid cron JSON"));
    assert_eq!(response.commands, vec!["/goal".to_owned()]);
    assert_eq!(response.project.as_deref(), Some(root));
}

#[test]
fn session_metadata_endpoint_takes_one_change() {
    assert!(matches!(
        metadata_update(Some("t".to_owned()), None, None),
        Ok(SessionMetadataUpdate::Rename(t)) if t == "t"
    ));
    assert!(matches!(
        metadata_update(None, Some(true), None),
        Ok(SessionMetadataUpdate::SetPinned(true))
    ));
    assert!(matches!(
        metadata_update(None, None, Some(false)),
        Ok(SessionMetadataUpdate::SetArchived(false))
    ));
    assert_eq!(
        metadata_update(None, None, None).unwrap_err().error,
        "provide exactly one of title, pinned, or archived"
    );
    assert!(metadata_update(None, Some(true), Some(true)).is_err());
}

#[test]
fn transcription_rejects_compatible_providers_before_network_access() {
    let refused = check_dictation(false).unwrap_err();
    assert_eq!(refused.status.code(), 403);
    assert_eq!(
        dictation_session(true, None).unwrap_err().error,
        "recording is empty"
    );
    assert_eq!(
        dictation_session(false, Some("no id")).unwrap_err().error,
        "invalid session id"
    );
    assert_eq!(
        dictation_session(false, Some("00000000-0000-0000-0000-00000000002a")).unwrap(),
        Some(42)
    );
    assert_eq!(dictation_session(false, None).unwrap(), None);
    assert_eq!(recording_type(Some("audio/ogg")), "audio/ogg");
    assert_eq!(recording_type(Some("text/plain")), "audio/webm");
    assert_eq!(recording_type(None), "audio/webm");
}

#[test]
fn uploads_are_held_to_their_size_and_digest() {
    let digest = "2CF24DBA5FB0A30E26E83B2AC5B9E29E1B161E5C1FA7425E73043362938B9824";
    let mut upload = Upload::begin(5);
    upload.push(&b"he".to_vec()).unwrap();
    upload.push(&b"llo".to_vec()).unwrap();
    assert!(upload.finish(digest).is_ok());
    assert_eq!(
        upload.finish("00").unwrap_err().message(),
        "attachment SHA-256 does not match the uploaded bytes"
    );
    assert_eq!(
        Upload::begin(5).finish(digest).unwrap_err().message(),
        "attachment is empty"
    );
    let mut large = Upload::begin(3 * 1024 * 1024);
    let error = large.push(&vec![0; 3 * 1024 * 1024 + 1]).unwrap_err();
    assert_eq!(error.message(), "attachment exceeds the 3 MiB limit");
    assert_eq!(upload_refusal(error.message()).status, Status::PayloadTooLarge);
    assert_eq!(upload_refusal("other".to_owned()).status, Status::BadRequest);
}

#[test]
fn attachments_belong_to_their_session() {
    let open = || OpenSession {
        id: 1,
        scope: SessionScope::Project,
        project_root: "/p".to_owned(),
    };
    assert_eq!(
        attachment_conversation(Some(open()), Some("/p"), 1).unwrap(),
        Some("/p".to_owned())
    );
    assert_eq!(
        attachment_conversation(None, None, 1).unwrap_err().error,
        "resume the target session before attaching files"
    );
    assert_eq!(
        attachment_conversation(Some(open()), Some("/q"), 1).unwrap_err().error,
        "attachment project and session do not match"
    );
    assert_eq!(check_stored(false).unwrap_err().status.code(), 404);
}

#[test]
fn completions_replace_what_stands_round_the_cursor() {
    let none = completed_text("ab", "cd", None, None, None);
    assert_eq!(none, (String::new(), String::new()));
    let menu = completed_text("say @fi", "le now", Some((4, 9)), None, Some((0, 7)));
    assert_eq!(menu, ("@fi".to_owned(), "le".to_owned()));
    let command = completed_text("/he", "", None, None, Some((0, 3)));
    assert_eq!(command, ("/he".to_owned(), String::new()));
}

#[test]
fn small_refusals_have_their_words() {
    assert_eq!(check_browsing(true).unwrap_err().status, Status::Conflict);
    assert_eq!(check_deleted_job(false).unwrap_err().error, "cron job does not exist");
    assert_eq!(check_extension(false).unwrap_err().status.code(), 401);
    assert_eq!(
        check_handshake(true, false).unwrap_err().error,
        "code-server instance not found"
    );
    assert!(check_handshake(true, true).is_ok());
}

#[test]
fn changes_open_one_after_another() {
    let refused = Opening::begin(Vec::new()).unwrap_err();
    assert_eq!(refused.error, "at least one file change is required");
    let kept = vec![change("/p/a", None)];
    let mut opening = Opening::begin(vec![1, 9]).unwrap();
    let step = opening.next(&kept, &Vec::new(), &Vec::new()).unwrap();
    assert!(matches!(step, OpenStep::Load(1)));
    let files = vec![diff("a", 1), diff("b", 2)];
    opening
        .take(
            Platform::Linux,
            &kept[0],
            Ok(Reconstructed { kind: FileChangeKind::Operation, files }),
            "/p",
            true,
        )
        .unwrap();
    let unknown = opening.next(&kept, &Vec::new(), &Vec::new()).unwrap_err();
    assert_eq!(unknown.status.code(), 404);
    let gone = opening.take(Platform::Linux, &kept[0], Err("lost".to_owned()), "/p", true).unwrap_err();
    assert_eq!(gone.status.code(), 410);
    opening.at = 2;
    match opening.next(&kept, &Vec::new(), &Vec::new()).unwrap() {
        OpenStep::Show { list: shown, focus } => {
            assert_eq!(focus, 0);
            assert_eq!(shown.title, "Operation changes");
            assert_eq!(shown.files[0].path, "b");
        }
        OpenStep::Load(id) => panic!("{id}"),
    }
}

#[test]
fn catalogs_that_cannot_be_had_say_why() {
    let known = load_catalog(Ok(vec![ModelCatalogEntry::from_id("m".to_owned())]));
    assert_eq!((known.models.len(), known.error), (1, None));
    let unknown = load_catalog(Err("offline".to_owned()));
    assert_eq!((unknown.models.len(), unknown.error.as_deref()), (0, Some("offline")));
    let mut workspace = ServerWorkspace::new("/start".to_owned());
    workspace.install_conversation("/run".to_owned(), SessionScope::Project, 6);
    workspace.leave_session("/run".to_owned(), SessionScope::Project);
    assert_eq!(workspace.selected_session, None);
    assert_eq!(ApiError::internal("oops".to_owned()).status.code(), 500);
}

#[test]
fn a_running_turn_tells_what_happens() {
    let delta = AgentEvent::AssistantTextDelta {
        delta: "Hel".to_owned(),
        start: true,
        sequence: 4,
        created_at: 9,
    };
    let told = chat_stream_event(delta);
    assert_eq!(told.tag(), "assistant_text_delta");
    assert!(matches!(
        told,
        ChatStreamMessage::AssistantTextDelta { delta, start: true, sequence: 4, created_at: 9 }
            if delta == "Hel"
    ));
    let message = Message::text(Role::Assistant, "Hello");
    let told = chat_stream_event(AgentEvent::AssistantMessageCompleted(message));
    assert_eq!(told.tag(), "assistant_message_completed");
    let told = chat_stream_event(AgentEvent::AssistantStreamReset);
    assert_eq!(told.tag(), "assistant_stream_reset");
}

#[test]
fn a_search_tells_what_it_finds_and_then_ends() {
    let found = SearchEvent::Found { request_id: 7, items: vec!["src/lib.rs"] };
    assert!(matches!(
        recursive_completions(7, found),
        SearchAction::Update { request_id: 7, items } if items == vec!["src/lib.rs"]
    ));
    let ended = recursive_completions(7, SearchEvent::<Vec<&str>>::Ended);
    assert!(matches!(ended, SearchAction::Done { request_id: 7 }));
    let closed = recursive_completions(7, SearchEvent::<Vec<&str>>::Closed);
    assert!(matches!(closed, SearchAction::Leave));
}
