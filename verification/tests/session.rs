use codecrab::conversation::ConversationTree;
use codecrab::events::{ActivityKind, ActivityStatus, AgentActivity};
use codecrab::hierarchy::{
    arrange_session_projects, arrange_session_tree, ScheduledRun, SessionProject, SessionSummary,
};
use codecrab::ids::id_text;
use codecrab::message::{Message, Role};
use codecrab::screen::{ObservationClassification, TerminalProcessState, TerminalRecord};
use codecrab::session::{
    default_next_terminal_id, default_provider, CompactionCheckpoint, CompactionTrigger, EditError,
    FileChange, GitFileChange, GoalStatus, RequestUsage, Session, TemporaryFileChange, TokenUsage,
    TurnOutcome,
};
use codecrab::store::{begin_deletion, deletion_failure, next_deletion, DeleteStep};
use codecrab::store::{
    list_sessions, resolve_global_session, resolve_id, resolve_session_root, session_roots,
    stored_created_at, ResolveError,
};

fn created(model: &str) -> Session {
    Session::create_for_provider(default_provider(), model.to_owned())
}

fn checkpoint(id: u128, through: usize, summary: &str) -> CompactionCheckpoint {
    CompactionCheckpoint {
        id,
        branch_leaf_id: None,
        created_at: 0,
        trigger: CompactionTrigger::BeforeTurn,
        covered_from_message_index: 0,
        covered_through_message_index: through,
        recent_tail_starts_at_message_index: through + 1,
        summary: summary.to_owned(),
        provider: "default".to_owned(),
        model: "test-model".to_owned(),
        reasoning_effort: None,
        service_tier: None,
        usage: TokenUsage { input_tokens: None, output_tokens: None, total_tokens: None },
        previous_checkpoint_id: None,
    }
}

fn activity(id: &str, turn_message_id: u128, index: usize) -> AgentActivity {
    AgentActivity {
        id: id.to_owned(),
        turn_message_id,
        turn_message_index: index,
        sequence: None,
        started_at: None,
        completed_at: None,
        tool: "read_file".to_owned(),
        kind: ActivityKind::Read,
        status: ActivityStatus::Completed,
        title: "Read".to_owned(),
        detail: "original.txt".to_owned(),
        change_id: None,
        live_change_id: None,
    }
}

#[test]
fn selecting_an_intermediate_node_follows_its_oldest_descendant_to_a_leaf() {
    let mut session = created("test-model");
    let root = session.messages.push(Message::text(Role::User, "root"));
    let original_answer = session
        .messages
        .push(Message::text(Role::Assistant, "original answer"));
    let original_leaf = session
        .messages
        .push(Message::text(Role::User, "original follow-up"));
    session
        .messages
        .branch_from(Some(root), Message::text(Role::Assistant, "newer answer"))
        .unwrap();
    session
        .messages
        .push(Message::text(Role::User, "newer follow-up"));

    let selected_leaf = session.select_branch(root).unwrap();

    assert_eq!(selected_leaf, original_leaf);
    assert_eq!(
        session.messages.active_node_ids(),
        &vec![root, original_answer, original_leaf]
    );
    assert_eq!(
        session.messages.messages()[2].content.as_deref(),
        Some("original follow-up")
    );
}

#[test]
fn editing_a_user_message_creates_a_new_branch_and_preserves_the_original_continuation() {
    let mut session = created("test-model");
    let root = session.messages.push(Message::text(Role::User, "root"));
    let answer = session
        .messages
        .push(Message::text(Role::Assistant, "original answer"));
    let original_message = session
        .messages
        .push(Message::text(Role::User, "original follow-up"));
    let original_leaf = session
        .messages
        .push(Message::text(Role::Assistant, "original continuation"));

    let edited_message = session
        .edit_user_message(original_message, "edited follow-up")
        .unwrap();

    assert_eq!(
        session.messages.active_node_ids(),
        &vec![root, answer, edited_message]
    );
    assert_eq!(
        session
            .messages
            .messages()
            .last()
            .and_then(|message| message.content.as_deref()),
        Some("edited follow-up")
    );
    assert_eq!(session.messages.nodes().len(), 5);
    assert_eq!(
        session
            .messages
            .message(original_leaf)
            .and_then(|message| message.content.as_deref()),
        Some("original continuation")
    );
}

#[test]
fn editing_the_first_message_updates_the_session_title() {
    let mut session = created("test-model");
    let root = session.messages.push(Message::text(Role::User, "old title"));

    session
        .edit_user_message(root, "A clearer edited request")
        .unwrap();

    assert_eq!(session.title, "A clearer edited request");
}

#[test]
fn an_edit_that_says_nothing_is_refused() {
    let mut session = created("test-model");
    let root = session.messages.push(Message::text(Role::User, "old title"));
    assert!(matches!(
        session.edit_user_message(root, "  \n"),
        Err(EditError::Empty)
    ));
    assert!(matches!(
        session.edit_user_message(root ^ 1, "text"),
        Err(EditError::Branch(_))
    ));
    assert_eq!(session.title, "New session");
}

#[test]
fn a_long_first_message_gives_a_short_title() {
    let mut session = created("test-model");
    let root = session.messages.push(Message::text(Role::User, "old title"));
    session.edit_user_message(root, &"x".repeat(100)).unwrap();
    assert_eq!(session.title, "x".repeat(72));
}

/// The session as it is once its nodes were stored and read again.
fn reloaded(mut session: Session) -> Session {
    let leaf = session.messages.active_leaf_id();
    let nodes = session
        .messages
        .nodes()
        .iter()
        .map(|node| codecrab::conversation::ConversationNode {
            id: node.id,
            parent_id: node.parent_id,
            message: node.message.clone(),
        })
        .collect();
    session.messages = ConversationTree::from_parts(nodes, leaf).unwrap();
    session.refresh_active_indexes();
    session
}

#[test]
fn branch_specific_metadata_is_not_reused_on_an_alternate_path() {
    let mut session = created("test-model");
    let root = session.messages.push(Message::text(Role::User, "root"));
    let original_turn = session
        .messages
        .push(Message::text(Role::User, "original follow-up"));
    let mut original = checkpoint(7, 1, "original branch summary");
    original.branch_leaf_id = Some(original_turn);
    session.compaction_checkpoints.push(original);
    session.latest_request_usage = Some(RequestUsage {
        recorded_at: 0,
        branch_leaf_id: Some(original_turn),
        provider: session.provider.clone(),
        model: session.model.clone(),
        reasoning_effort: None,
        service_tier: None,
        canonical_message_count: session.messages.messages().len(),
        checkpoint_id: None,
        usage: TokenUsage { input_tokens: None, output_tokens: None, total_tokens: None },
    });
    session
        .activities
        .push(activity("original-activity", original_turn, 1));
    session.start_turn(original_turn, 1, 0);
    assert!(session.latest_compaction().is_some());
    assert!(session.latest_request_usage().is_some());

    session
        .messages
        .branch_from(
            Some(root),
            Message::text(Role::User, "alternate follow-up"),
        )
        .unwrap();
    assert!(session.latest_compaction().is_none());
    assert!(session.latest_request_usage().is_none());

    let loaded = reloaded(session);
    assert_eq!(loaded.activities[0].turn_message_index, usize::MAX);
    assert_eq!(loaded.turns[0].message_index, usize::MAX);
    assert!(loaded.latest_compaction().is_none());
    assert!(loaded.latest_request_usage().is_none());
}

#[test]
fn scheduled_run_lineage_is_persisted_and_exposed_in_session_lists() {
    let mut session = created("test-model");
    session.scheduled_run = Some(ScheduledRun {
        job_id: "nightly".to_owned(),
        occurrence: 7,
        scheduled_at: codecrab::clock::now(),
    });

    let loaded = reloaded(session);
    assert_eq!(loaded.scheduled_run.as_ref().unwrap().job_id, "nightly");
    let summary = list_sessions(&vec![loaded.summary()]).pop().unwrap();
    assert_eq!(summary.scheduled_run.unwrap().occurrence, 7);
}

#[test]
fn provider_is_persisted_with_the_session() {
    let session =
        Session::create_for_provider("example".to_owned(), "example-model".to_owned());
    let loaded = reloaded(session);
    assert_eq!(loaded.provider, "example");
    assert_eq!(loaded.model, "example-model");
}

#[test]
fn loading_a_legacy_session_persists_updated_at_as_created_at() {
    assert_eq!(stored_created_at(None, Some(7)), Some((7, true)));
    assert_eq!(stored_created_at(Some(5), Some(7)), Some((5, false)));
    assert_eq!(stored_created_at(None, None), None);
}

const HOUR: i128 = 3_600 * 1_000_000_000;

#[test]
fn lists_by_creation_but_default_resume_uses_latest_update() {
    let now = codecrab::clock::now();
    let mut older = created("older");
    older.created_at = now - 2 * HOUR;
    older.updated_at = now;
    let mut newer = created("newer");
    newer.created_at = now - HOUR;
    newer.updated_at = now - HOUR / 2;

    let sessions = list_sessions(&vec![older.summary(), newer.summary()]);
    assert_eq!(
        sessions.iter().map(|session| session.id).collect::<Vec<_>>(),
        vec![newer.id, older.id]
    );
    assert_eq!(resolve_id(&sessions, None).unwrap(), older.id);
    let projects = vec![SessionProject { root: "/project".to_owned(), sessions }];
    assert_eq!(resolve_global_session(&projects, None).unwrap().1, older.id);
}

#[test]
fn event_timestamps_are_persisted_with_the_session() {
    let mut session = created("test-model");
    let started_at = codecrab::clock::now();
    let completed_at = started_at + 7 * 1_000_000_000;
    let mut message = Message::text(Role::User, "Inspect timestamps");
    message.created_at = Some(started_at);
    let message_id = session.messages.push(message);
    let mut called = activity("call-timestamp", message_id, 0);
    called.sequence = Some(1);
    called.started_at = Some(started_at);
    called.completed_at = Some(completed_at);
    called.detail = "src/main.rs".to_owned();
    session.activities.push(called);
    session.start_turn(message_id, 0, started_at);
    session.complete_turn(message_id, completed_at);

    let loaded = reloaded(session);
    assert_eq!(loaded.messages.messages()[0].created_at, Some(started_at));
    assert_eq!(loaded.activities[0].started_at, Some(started_at));
    assert_eq!(loaded.activities[0].completed_at, Some(completed_at));
    assert_eq!(loaded.turns.len(), 1);
    assert_eq!(loaded.turns[0].message_index, 0);
    assert_eq!(loaded.turns[0].started_at, started_at);
    assert_eq!(loaded.turns[0].completed_at, Some(completed_at));
}

#[test]
fn event_sequence_continues_after_resuming_a_session() {
    let mut session = created("test-model");
    assert_eq!(session.reserve_event_sequence(), 0);
    assert_eq!(session.reserve_event_sequence(), 1);

    let mut loaded = reloaded(session);
    assert_eq!(loaded.reserve_event_sequence(), 2);
}

#[test]
fn compaction_checkpoints_reload_without_rewriting_raw_history() {
    let mut session = created("test-model");
    session
        .messages
        .push(Message::text(Role::User, "original request"));
    session
        .messages
        .push(Message::text(Role::Assistant, "original exact answer"));
    let rolling = checkpoint(9, 1, "rolling summary");
    let checkpoint_id = rolling.id;
    session.compaction_checkpoints.push(rolling);
    session.latest_request_usage = Some(RequestUsage {
        recorded_at: codecrab::clock::now(),
        branch_leaf_id: None,
        provider: session.provider.clone(),
        model: session.model.clone(),
        reasoning_effort: None,
        service_tier: None,
        canonical_message_count: session.messages.messages().len(),
        checkpoint_id: Some(checkpoint_id),
        usage: TokenUsage {
            input_tokens: Some(42),
            output_tokens: Some(7),
            total_tokens: None,
        },
    });

    let loaded = reloaded(session);
    assert_eq!(loaded.messages.messages().len(), 2);
    assert_eq!(
        loaded.messages.messages()[1].content.as_deref(),
        Some("original exact answer")
    );
    assert_eq!(loaded.compaction_checkpoints.len(), 1);
    assert_eq!(loaded.compaction_checkpoints[0].id, checkpoint_id);
    assert_eq!(
        loaded
            .latest_request_usage
            .as_ref()
            .and_then(|usage| usage.usage.input_tokens),
        Some(42)
    );
}

#[test]
fn terminal_records_and_monotonic_counter_are_persisted() {
    let mut session = created("test-model");
    assert_eq!(session.next_terminal_id, default_next_terminal_id());
    let now = codecrab::clock::now();
    session.next_terminal_id = 4;
    session.terminals.push(TerminalRecord {
        id: "terminal_3".to_owned(),
        command: "interactive-command".to_owned(),
        shell: "/bin/sh".to_owned(),
        working_directory: "/work".to_owned(),
        created_at: now,
        updated_at: now,
        completed_at: None,
        columns: 120,
        rows: 40,
        state: TerminalProcessState::Running,
        exit_code: None,
        latest_snapshot: None,
        latest_observation: ObservationClassification::Unchanged,
        recent_transcript: "prompt".to_owned(),
    });

    let loaded = reloaded(session);

    assert_eq!(loaded.next_terminal_id, 4);
    assert_eq!(loaded.terminals.len(), 1);
    assert_eq!(loaded.terminals[0].id, "terminal_3");
    assert_eq!(loaded.terminals[0].state, TerminalProcessState::Running);
    assert_eq!(loaded.terminals[0].recent_transcript, "prompt");
}

#[test]
fn a_session_can_be_deleted_by_prefix() {
    let session = created("test-model");
    let mut stored = vec![session.summary(), created("other-model").summary()];

    let deleted = resolve_id(&stored, Some(&id_text(session.id)[..8])).unwrap();
    let mut step = begin_deletion(false);
    while let DeleteStep::Remove { .. } = step {
        let before = stored.len();
        stored.retain(|summary| summary.id != deleted);
        step = next_deletion(step, stored.len() < before);
    }

    assert_eq!(step, DeleteStep::Deleted);
    assert_eq!(deleted, session.id);
    assert_eq!(list_sessions(&stored).len(), 1);
    assert!(resolve_id(&stored, Some(&id_text(session.id))).is_err());
    stored.clear();
    assert!(list_sessions(&stored).is_empty());
}

#[test]
fn deleting_a_parent_preserves_child_lineage_and_promotes_it_to_a_root() {
    let parent = created("model");
    let mut child = created("model");
    child.parent_session_id = Some(parent.id);
    let mut sessions = list_sessions(&vec![child.summary()]);

    arrange_session_tree(&mut sessions);

    assert_eq!(sessions[0].parent_session_id, Some(parent.id));
    assert_eq!(sessions.len(), 1);
    assert_eq!(sessions[0].id, child.id);
    assert_eq!(sessions[0].depth, 0);
}

#[test]
fn goals_are_persisted_with_only_one_active_at_a_time() {
    let mut session = created("test-model");

    let first = session.create_goal("Finish the migration".to_owned());
    let second = session.create_goal("Fix the release build".to_owned());

    let status = |session: &Session, id: u128| {
        session
            .goals
            .iter()
            .find(|goal| goal.id == id)
            .unwrap()
            .status
    };
    assert_eq!(status(&session, first), GoalStatus::Paused);
    assert_eq!(session.active_goal().unwrap().id, second);
    assert_eq!(session.visible_goal_id, Some(second));

    assert!(session.activate_goal(first));
    assert_eq!(session.active_goal().unwrap().id, first);
    assert_eq!(status(&session, second), GoalStatus::Paused);
    session.finish_active_goal(GoalStatus::Completed, Some("Tests pass".to_owned()));

    let loaded = reloaded(session);
    assert_eq!(loaded.goals.len(), 2);
    assert_eq!(loaded.visible_goal_id, Some(first));
    assert_eq!(status(&loaded, first), GoalStatus::Completed);
}

#[test]
fn goals_can_be_edited_paused_and_deleted() {
    let mut session = created("test-model");
    let goal = session.create_goal("First".to_owned());
    assert!(session.edit_goal(goal, "Second".to_owned()));
    assert_eq!(session.goals[0].objective, "Second");
    assert!(session.pause_goal(goal));
    assert!(session.active_goal().is_none());
    assert!(!session.pause_goal(goal ^ 1));
    assert!(session.delete_goal(goal));
    assert!(session.goals.is_empty());
    assert_eq!(session.visible_goal_id, None);
    assert!(!session.activate_goal(goal));
}

#[test]
fn the_latest_turn_keeps_how_it_ended() {
    let mut session = created("test-model");
    session.start_turn(4, 0, 10);
    session.finish_latest_turn(TurnOutcome::Cancelled, 20);
    assert_eq!(session.turns[0].outcome, Some(TurnOutcome::Cancelled));
    assert_eq!(session.turns[0].completed_at, Some(20));
}

fn summary(id: u128, parent: Option<u128>, created_at: i128) -> SessionSummary {
    SessionSummary {
        id,
        parent_session_id: parent,
        scheduled_run: None,
        created_at: created_at * 1_000_000_000,
        updated_at: created_at * 1_000_000_000,
        title: format!("session-{id}"),
        model: "model".to_owned(),
        depth: 99,
        descendant_count: 99,
    }
}

#[test]
fn session_hierarchy_is_recursive_ordered_and_cycle_safe() {
    let mut projects = vec![
        SessionProject {
            root: "first".to_owned(),
            sessions: vec![
                summary(1, None, 1),
                summary(2, None, 10),
                summary(3, Some(1), 5),
                summary(4, Some(3), 6),
                summary(5, Some(999), 9),
                summary(6, Some(7), 7),
                summary(7, Some(6), 4),
            ],
        },
        SessionProject {
            root: "second".to_owned(),
            sessions: vec![summary(8, Some(1), 8)],
        },
    ];

    arrange_session_projects(&mut projects);

    assert_eq!(
        projects[0]
            .sessions
            .iter()
            .map(|session| session.id)
            .collect::<Vec<_>>(),
        vec![2, 5, 6, 7, 1, 3, 4]
    );
    let by_id = |id: u128| {
        projects[0]
            .sessions
            .iter()
            .find(|session| session.id == id)
            .unwrap()
    };
    assert_eq!((by_id(1).depth, by_id(1).descendant_count), (0, 2));
    assert_eq!((by_id(3).depth, by_id(3).descendant_count), (1, 1));
    assert_eq!((by_id(4).depth, by_id(4).descendant_count), (2, 0));
    assert_eq!(by_id(5).depth, 0, "missing parents become roots");
    assert_eq!(by_id(6).depth, 0, "cycle members become roots");
    assert_eq!(by_id(7).depth, 0, "cycle members become roots");
    assert_eq!(
        projects[1].sessions[0].depth, 0,
        "cross-project parents become roots"
    );
    assert_eq!(
        projects
            .iter()
            .map(|project| project.sessions.len())
            .sum::<usize>(),
        8
    );
    assert_eq!(projects[0].sessions[0].parent_session_id, None);
    assert_eq!(projects[0].sessions[5].parent_session_id, Some(1));
    assert_eq!(projects[0].sessions[5].depth, 1);
    assert_eq!(projects[0].sessions[4].descendant_count, 2);
}

#[test]
fn lists_current_project_first_and_resolves_sessions_globally() {
    let roots = session_roots(
        "/current",
        &vec!["/other".to_owned(), "/current".to_owned(), "/other".to_owned()],
    );
    assert_eq!(roots, vec!["/current".to_owned(), "/other".to_owned()]);
    let current_session = created("current-model");
    let other_session = created("other-model");
    let projects = vec![
        SessionProject { root: roots[0].clone(), sessions: vec![current_session.summary()] },
        SessionProject { root: roots[1].clone(), sessions: vec![other_session.summary()] },
    ];

    let (root, id) =
        resolve_global_session(&projects, Some(&id_text(other_session.id)[..8])).unwrap();
    assert_eq!(root, "/other");
    assert_eq!(id, other_session.id);
    assert_eq!(
        resolve_session_root(Some("/asked"), "ignored", &projects).unwrap(),
        "/asked"
    );
    assert_eq!(
        resolve_session_root(None, &id_text(current_session.id), &projects).unwrap(),
        "/current"
    );
}

#[test]
fn prefixes_that_match_nothing_or_too_much_are_refused() {
    let sessions = vec![summary(1, None, 1), summary(2, None, 2)];
    match resolve_id(&sessions, Some("0000")) {
        Err(ResolveError::Ambiguous(p)) => assert_eq!(p, "0000"),
        other => panic!("{other:?}"),
    }
    let missing = resolve_id(&sessions, Some("f")).unwrap_err();
    assert_eq!(missing.message(), "no session matches \"f\"");
    let none = resolve_id(&Vec::new(), None).unwrap_err();
    assert_eq!(none.message(), "there are no saved sessions");
    assert_eq!(
        ResolveError::Ambiguous("a\"b".to_owned()).message(),
        "session prefix \"a\\\"b\" is ambiguous"
    );
}

#[test]
fn file_changes_know_their_path() {
    let temporary = FileChange::Temporary(TemporaryFileChange {
        path: "/a".to_owned(),
        before: String::new(),
        after: String::new(),
    });
    let git = FileChange::Git(GitFileChange {
        path: "/b".to_owned(),
        commit: String::new(),
        relative_path: String::new(),
        before_patch: String::new(),
        after_patch: String::new(),
        before_sha256: String::new(),
        after_sha256: String::new(),
    });
    assert_eq!((temporary.path(), git.path()), ("/a", "/b"));
}

#[test]
fn previews_show_a_branch_without_selecting_it() {
    let mut session = created("model");
    let root = session.messages.push(Message::text(Role::User, "first"));
    let answer = session.messages.push(Message::text(Role::Assistant, "answer"));
    session.edit_user_message(root, "second").unwrap();
    let preview = Session::preview_branch(session, root, 7).unwrap();
    assert_eq!(preview.messages.active_leaf_id(), Some(answer));
    assert_eq!(preview.updated_at, 7);
    assert_eq!(preview.title, "second");
    let mut goals = created("model");
    assert_eq!(goals.pause_active_goal(), None);
    let goal = goals.create_goal("reach it".to_owned());
    assert_eq!(goals.pause_active_goal(), Some(goal));
    assert!(goals.active_goal().is_none());
}

#[test]
fn deletions_put_data_back_where_they_fail() {
    let step = begin_deletion(true);
    assert_eq!(step, DeleteStep::PutAside);
    let step = next_deletion(step, true);
    assert_eq!(step, DeleteStep::Remove { put_aside: true });
    assert_eq!(next_deletion(step, false), DeleteStep::PutBack);
    let step = next_deletion(step, true);
    assert_eq!(step, DeleteStep::RemoveData);
    assert_eq!(next_deletion(step, true), DeleteStep::Deleted);
    assert_eq!(
        deletion_failure(next_deletion(step, false), "s", "d", "a").as_deref(),
        Some("session was deleted, but cannot remove a")
    );
    assert_eq!(
        deletion_failure(next_deletion(DeleteStep::PutAside, false), "s", "d", "a").as_deref(),
        Some("cannot prepare attachment data d for deletion")
    );
    let alone = next_deletion(begin_deletion(false), false);
    assert_eq!(deletion_failure(alone, "s", "d", "a").as_deref(), Some("cannot delete s"));
    assert_eq!(deletion_failure(DeleteStep::Deleted, "s", "d", "a"), None);
}

#[test]
fn arranged_sessions_stay_arranged() {
    let mut sessions = vec![
        summary(1, None, 10),
        summary(4, Some(2), 40),
        summary(2, Some(1), 20),
        summary(3, Some(1), 30),
        summary(5, None, 50),
    ];
    arrange_session_tree(&mut sessions);
    let shown = |sessions: &Vec<SessionSummary>| {
        sessions.iter().map(|s| (s.id, s.depth, s.descendant_count)).collect::<Vec<_>>()
    };
    let once = shown(&sessions);
    assert_eq!(once, vec![(5, 0, 0), (1, 0, 3), (3, 1, 0), (2, 1, 1), (4, 2, 0)]);
    arrange_session_tree(&mut sessions);
    assert_eq!(shown(&sessions), once);
}
