use codecrab::events::{activity_detail, activity_labels, ActivityKind, ActivityStatus, AgentActivity};

#[test]
fn activities_have_shared_human_readable_lifecycle_labels() {
    let mut activity = AgentActivity::started(
        "call-1".to_owned(),
        11,
        3,
        7,
        "read_file",
        r#"{"path":"src/main.rs"}"#,
    );
    assert_eq!(activity.title, "Reading");
    assert_eq!(activity.detail, "src/main.rs");
    assert_eq!(activity.status, ActivityStatus::Running);
    assert_eq!(activity.sequence, Some(7));
    assert!(activity.started_at.is_some());
    assert!(activity.completed_at.is_none());

    activity.finish(true);
    assert_eq!(activity.title, "Read");
    assert_eq!(activity.status, ActivityStatus::Completed);
    assert!(activity.completed_at.is_some());
}

#[test]
fn activity_details_preserve_complete_tool_arguments() {
    let command = "x".repeat(400);
    let arguments = format!("{{\"command\":\"{command}\"}}");
    let activity =
        AgentActivity::started("call-1".to_owned(), 12, 0, 4, "shell", &arguments);

    assert_eq!(activity.detail, command);
}

#[test]
fn unknown_tools_are_named_and_odd_arguments_do_no_harm() {
    let (kind, running, completed, failed) = activity_labels("read_file");
    assert_eq!(kind, ActivityKind::Read);
    assert_eq!((running, completed), ("Reading", "Read"));
    assert!(!failed.is_empty());
    assert_eq!(activity_detail("shell", "not json"), "shell");
    assert_eq!(
        activity_detail("search", r#"{"query":"a\"b","path":"src"}"#),
        "\"a\\\"b\" in src"
    );
}

#[test]
fn requests_that_fail_or_are_tried_again_are_told() {
    let retry = AgentActivity::model_retry("a".to_owned(), 1, 0, 4, 2, 5, "busy".to_owned(), 9);
    assert_eq!(retry.title, "Retrying model request (2/5)");
    assert_eq!((retry.detail.as_str(), retry.kind), ("busy", ActivityKind::Network));
    let failed = AgentActivity::model_error("b".to_owned(), 1, 0, 4, "gone".to_owned(), 9);
    assert_eq!(failed.title, "Model request failed");
    assert_eq!(failed.status, ActivityStatus::Failed);
}

#[test]
fn compactions_tell_what_they_saved() {
    let mut activity = AgentActivity::compaction_started("c".to_owned(), 1, 0, 4, 900, 9);
    assert_eq!(activity.detail, "Estimated active context: 900 tokens");
    assert_eq!(activity.completed_at, None);
    activity.finish_compaction(true, 900, Some(300), None, 12);
    assert_eq!(activity.title, "Context compacted");
    assert_eq!(activity.detail, "900 → 300 tokens");
    assert_eq!(activity.completed_at, Some(12));
    let retry =
        AgentActivity::compaction_retry("d".to_owned(), 1, 0, 4, 1, 3, "slow".to_owned(), 9);
    assert_eq!(retry.title, "Retrying context compaction (1/3)");
    let mut lost = AgentActivity::compaction_started("e".to_owned(), 1, 0, 4, 900, 9);
    lost.finish_compaction(false, 900, None, Some("offline"), 12);
    assert_eq!(lost.status, ActivityStatus::Failed);
    assert!(lost.detail.contains("offline"));
}
