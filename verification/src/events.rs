//! What the agent does, as shown to a person.
use crate::json;
use crate::json::{Json, JsonView};
use crate::message::Message;
use crate::text;
use vstd::prelude::*;
use vstd::string::*;

verus! {

/// What kind of thing a tool does.
#[derive(Clone, Copy, Debug, PartialEq, Eq, Structural)]
pub enum ActivityKind {
    Read,
    Search,
    Write,
    Shell,
    Skill,
    Network,
    Other,
}

/// How far an activity is.
#[derive(Clone, Copy, Debug, PartialEq, Eq, Structural)]
pub enum ActivityStatus {
    Running,
    Completed,
    Failed,
}

/// One thing the agent did in a turn.
#[derive(Debug)]
pub struct AgentActivity {
    pub id: String,
    pub turn_message_id: u128,
    pub turn_message_index: usize,
    pub sequence: Option<u64>,
    pub started_at: Option<i128>,
    pub completed_at: Option<i128>,
    pub tool: String,
    pub kind: ActivityKind,
    pub status: ActivityStatus,
    pub title: String,
    pub detail: String,
    pub change_id: Option<u128>,
    pub live_change_id: Option<u128>,
}

/// What a running turn tells its listeners.
#[derive(Debug)]
pub enum AgentEvent {
    UserMessage(Message),
    AssistantMessage(Message),
    AssistantTextDelta { delta: String, start: bool, sequence: u64, created_at: i128 },
    AssistantStreamReset,
    AssistantMessageCompleted(Message),
    Activity(AgentActivity),
}

impl Clone for AgentActivity {
    fn clone(&self) -> (r: Self)
        ensures
            r == *self,
    {
        AgentActivity {
            id: self.id.clone(),
            turn_message_id: self.turn_message_id,
            turn_message_index: self.turn_message_index,
            sequence: self.sequence,
            started_at: self.started_at,
            completed_at: self.completed_at,
            tool: self.tool.clone(),
            kind: self.kind,
            status: self.status,
            title: self.title.clone(),
            detail: self.detail.clone(),
            change_id: self.change_id,
            live_change_id: self.live_change_id,
        }
    }
}

/// The kind of a tool and the titles of its activity.
pub struct Labels {
    pub kind: ActivityKind,
    pub running: Seq<char>,
    pub completed: Seq<char>,
    pub failed: Seq<char>,
}

/// The kind of a tool and the titles of its activity.
pub open spec fn labels(tool: Seq<char>) -> Labels {
    if tool == "list_files"@ {
        Labels {
            kind: ActivityKind::Read,
            running: "Listing"@,
            completed: "Listed"@,
            failed: "Failed to list"@,
        }
    } else if tool == "read_file"@ {
        Labels {
            kind: ActivityKind::Read,
            running: "Reading"@,
            completed: "Read"@,
            failed: "Failed to read"@,
        }
    } else if tool == "search"@ {
        Labels {
            kind: ActivityKind::Search,
            running: "Searching"@,
            completed: "Searched"@,
            failed: "Search failed"@,
        }
    } else if tool == "write_file"@ {
        Labels {
            kind: ActivityKind::Write,
            running: "Writing"@,
            completed: "Wrote"@,
            failed: "Failed to write"@,
        }
    } else if tool == "replace_in_file"@ {
        Labels {
            kind: ActivityKind::Write,
            running: "Editing"@,
            completed: "Edited"@,
            failed: "Failed to edit"@,
        }
    } else if tool == "shell"@ || tool == "shell_noninteractive"@ {
        Labels {
            kind: ActivityKind::Shell,
            running: "Running command"@,
            completed: "Ran command"@,
            failed: "Command failed"@,
        }
    } else if tool == "terminal_input"@ {
        Labels {
            kind: ActivityKind::Shell,
            running: "Interacting with terminal"@,
            completed: "Interacted with terminal"@,
            failed: "Terminal interaction failed"@,
        }
    } else if tool == "terminal_read"@ {
        Labels {
            kind: ActivityKind::Shell,
            running: "Observing terminal"@,
            completed: "Observed terminal"@,
            failed: "Terminal observation failed"@,
        }
    } else if tool == "terminal_close"@ {
        Labels {
            kind: ActivityKind::Shell,
            running: "Closing terminal"@,
            completed: "Closed terminal"@,
            failed: "Failed to close terminal"@,
        }
    } else if tool == "terminal_list"@ {
        Labels {
            kind: ActivityKind::Shell,
            running: "Listing terminals"@,
            completed: "Listed terminals"@,
            failed: "Failed to list terminals"@,
        }
    } else if tool == "load_skill"@ {
        Labels {
            kind: ActivityKind::Skill,
            running: "Loading skill"@,
            completed: "Loaded skill"@,
            failed: "Failed to load skill"@,
        }
    } else if tool == "read_skill_file"@ {
        Labels {
            kind: ActivityKind::Skill,
            running: "Reading skill file"@,
            completed: "Read skill file"@,
            failed: "Failed to read skill file"@,
        }
    } else if tool == "session_create"@ {
        Labels {
            kind: ActivityKind::Other,
            running: "Creating delegated session"@,
            completed: "Created delegated session"@,
            failed: "Failed to create delegated session"@,
        }
    } else if tool == "session_list"@ {
        Labels {
            kind: ActivityKind::Read,
            running: "Listing sessions"@,
            completed: "Listed sessions"@,
            failed: "Failed to list sessions"@,
        }
    } else if tool == "session_status"@ {
        Labels {
            kind: ActivityKind::Read,
            running: "Checking session status"@,
            completed: "Checked session status"@,
            failed: "Failed to check session status"@,
        }
    } else if tool == "session_messages"@ {
        Labels {
            kind: ActivityKind::Read,
            running: "Reading session messages"@,
            completed: "Read session messages"@,
            failed: "Failed to read session messages"@,
        }
    } else if tool == "session_send"@ {
        Labels {
            kind: ActivityKind::Other,
            running: "Sending to session"@,
            completed: "Sent to session"@,
            failed: "Failed to send to session"@,
        }
    } else if tool == "session_stop"@ {
        Labels {
            kind: ActivityKind::Other,
            running: "Stopping session turn"@,
            completed: "Stopped session turn"@,
            failed: "Failed to stop session turn"@,
        }
    } else if tool == "session_wait"@ {
        Labels {
            kind: ActivityKind::Read,
            running: "Waiting for sessions"@,
            completed: "Observed session change"@,
            failed: "Failed while waiting for sessions"@,
        }
    } else {
        Labels {
            kind: ActivityKind::Other,
            running: "Using tool"@,
            completed: "Used tool"@,
            failed: "Tool failed"@,
        }
    }
}

/// The kind of a tool, and the title of its activity while it runs, once it succeeded and once it
/// failed.
pub fn activity_labels(tool: &str) -> (r: (
    ActivityKind,
    &'static str,
    &'static str,
    &'static str,
))
    ensures
        labels(tool@) == (Labels {
            kind: r.0,
            running: r.1@,
            completed: r.2@,
            failed: r.3@,
        }),
{
    if text::same(tool, "list_files") {
        (ActivityKind::Read, "Listing", "Listed", "Failed to list")
    } else if text::same(tool, "read_file") {
        (ActivityKind::Read, "Reading", "Read", "Failed to read")
    } else if text::same(tool, "search") {
        (ActivityKind::Search, "Searching", "Searched", "Search failed")
    } else if text::same(tool, "write_file") {
        (ActivityKind::Write, "Writing", "Wrote", "Failed to write")
    } else if text::same(tool, "replace_in_file") {
        (ActivityKind::Write, "Editing", "Edited", "Failed to edit")
    } else if text::same(tool, "shell") || text::same(tool, "shell_noninteractive") {
        (ActivityKind::Shell, "Running command", "Ran command", "Command failed")
    } else if text::same(tool, "terminal_input") {
        (ActivityKind::Shell, "Interacting with terminal", "Interacted with terminal", "Terminal interaction failed")
    } else if text::same(tool, "terminal_read") {
        (ActivityKind::Shell, "Observing terminal", "Observed terminal", "Terminal observation failed")
    } else if text::same(tool, "terminal_close") {
        (ActivityKind::Shell, "Closing terminal", "Closed terminal", "Failed to close terminal")
    } else if text::same(tool, "terminal_list") {
        (ActivityKind::Shell, "Listing terminals", "Listed terminals", "Failed to list terminals")
    } else if text::same(tool, "load_skill") {
        (ActivityKind::Skill, "Loading skill", "Loaded skill", "Failed to load skill")
    } else if text::same(tool, "read_skill_file") {
        (ActivityKind::Skill, "Reading skill file", "Read skill file", "Failed to read skill file")
    } else if text::same(tool, "session_create") {
        (ActivityKind::Other, "Creating delegated session", "Created delegated session", "Failed to create delegated session")
    } else if text::same(tool, "session_list") {
        (ActivityKind::Read, "Listing sessions", "Listed sessions", "Failed to list sessions")
    } else if text::same(tool, "session_status") {
        (ActivityKind::Read, "Checking session status", "Checked session status", "Failed to check session status")
    } else if text::same(tool, "session_messages") {
        (ActivityKind::Read, "Reading session messages", "Read session messages", "Failed to read session messages")
    } else if text::same(tool, "session_send") {
        (ActivityKind::Other, "Sending to session", "Sent to session", "Failed to send to session")
    } else if text::same(tool, "session_stop") {
        (ActivityKind::Other, "Stopping session turn", "Stopped session turn", "Failed to stop session turn")
    } else if text::same(tool, "session_wait") {
        (ActivityKind::Read, "Waiting for sessions", "Observed session change", "Failed while waiting for sessions")
    } else {
        (ActivityKind::Other, "Using tool", "Used tool", "Tool failed")
    }
}

/// `a`, or `b` where there is no `a`.
pub open spec fn or_text(a: Option<Seq<char>>, b: Seq<char>) -> Seq<char> {
    match a {
        Some(s) => s,
        None => b,
    }
}

/// How many sessions an array field names, or the tool where there is no such field.
pub open spec fn session_count(arguments: JsonView, field: Seq<char>, tool: Seq<char>) -> Seq<char> {
    match arguments.field(field) {
        Some(j) => match j.items() {
            Some(items) => text::decimal(items.len()) + " session(s)"@,
            None => tool,
        },
        None => tool,
    }
}

/// What an activity of `tool` with these arguments is about.
pub open spec fn detail_of(tool: Seq<char>, arguments: JsonView) -> Seq<char> {
    if tool == "search"@ {
        text::quoted(or_text(arguments.text_field("query"@), Seq::empty())) + " in "@ + or_text(
            arguments.text_field("path"@),
            "."@,
        )
    } else if tool == "list_files"@ {
        or_text(arguments.text_field("path"@), "."@)
    } else if tool == "shell"@ || tool == "shell_noninteractive"@ {
        or_text(arguments.text_field("command"@), tool)
    } else if tool == "terminal_input"@ || tool == "terminal_read"@ || tool == "terminal_close"@ {
        or_text(arguments.text_field("terminal_id"@), tool)
    } else if tool == "load_skill"@ {
        or_text(arguments.text_field("name"@), tool)
    } else if tool == "session_create"@ {
        "fresh isolated context"@
    } else if tool == "session_list"@ {
        "controllable sessions"@
    } else if tool == "session_status"@ {
        session_count(arguments, "session_ids"@, tool)
    } else if tool == "session_messages"@ || tool == "session_send"@ || tool == "session_stop"@ {
        or_text(arguments.text_field("session_id"@), tool)
    } else if tool == "session_wait"@ {
        session_count(arguments, "targets"@, tool)
    } else {
        or_text(
            arguments.text_field("path"@),
            or_text(
                arguments.text_field("name"@),
                or_text(
                    arguments.text_field("query"@),
                    or_text(arguments.text_field("command"@), tool),
                ),
            ),
        )
    }
}

/// What an activity of `tool` with arguments in this text is about: the tool itself where the text
/// is no JSON.
pub open spec fn detail_of_text(tool: Seq<char>, arguments: Seq<char>) -> Seq<char> {
    match json::read_json(arguments) {
        Ok(j) => detail_of(tool, j),
        Err(_) => tool,
    }
}

fn field_or(arguments: &Json, field: &str, other: &str) -> (s: String)
    ensures
        s@ == or_text(arguments@.text_field(field@), other@),
{
    match arguments.get_str(field) {
        Some(s) => s.to_owned(),
        None => other.to_owned(),
    }
}

fn count_sessions(arguments: &Json, field: &str, tool: &str) -> (s: String)
    ensures
        s@ == session_count(arguments@, field@, tool@),
{
    match arguments.get(field) {
        Some(j) => match j.as_array() {
            Some(items) => {
                proof {
                    json::lemma_item_views(items@);
                }
                text::cat2(&text::to_decimal(items.len() as u64), " session(s)")
            },
            None => tool.to_owned(),
        },
        None => tool.to_owned(),
    }
}

/// What an activity of `tool` with these arguments is about.
pub fn detail_of_arguments(tool: &str, arguments: &Json) -> (s: String)
    ensures
        s@ == detail_of(tool@, arguments@),
{
    if text::same(tool, "search") {
        let query = match arguments.get_str("query") {
            Some(s) => s.to_owned(),
            None => String::new(),
        };
        text::cat3(&text::quote(&query), " in ", &field_or(arguments, "path", "."))
    } else if text::same(tool, "list_files") {
        field_or(arguments, "path", ".")
    } else if text::same(tool, "shell") || text::same(tool, "shell_noninteractive") {
        field_or(arguments, "command", tool)
    } else if text::same(tool, "terminal_input") || text::same(tool, "terminal_read") || text::same(
        tool,
        "terminal_close",
    ) {
        field_or(arguments, "terminal_id", tool)
    } else if text::same(tool, "load_skill") {
        field_or(arguments, "name", tool)
    } else if text::same(tool, "session_create") {
        "fresh isolated context".to_owned()
    } else if text::same(tool, "session_list") {
        "controllable sessions".to_owned()
    } else if text::same(tool, "session_status") {
        count_sessions(arguments, "session_ids", tool)
    } else if text::same(tool, "session_messages") || text::same(tool, "session_send") || text::same(
        tool,
        "session_stop",
    ) {
        field_or(arguments, "session_id", tool)
    } else if text::same(tool, "session_wait") {
        count_sessions(arguments, "targets", tool)
    } else {
        let command = field_or(arguments, "command", tool);
        let query = field_or(arguments, "query", &command);
        let name = field_or(arguments, "name", &query);
        field_or(arguments, "path", &name)
    }
}

/// What an activity of `tool` with arguments in this text is about.
pub fn activity_detail(tool: &str, arguments: &str) -> (s: String)
    ensures
        s@ == detail_of_text(tool@, arguments@),
{
    match json::parse_json(arguments) {
        Ok(j) => detail_of_arguments(tool, &j),
        Err(_) => tool.to_owned(),
    }
}

/// `before` `a` `/` `b` `)`.
fn retry_title(before: &str, retry: usize, max_retries: usize) -> (s: String)
    ensures
        s@ == before@ + text::decimal(retry as nat) + "/"@ + text::decimal(max_retries as nat)
            + ")"@,
{
    text::cat5(
        before,
        &text::to_decimal(retry as u64),
        "/",
        &text::to_decimal(max_retries as u64),
        ")",
    )
}

impl AgentActivity {
    /// A tool call that begins at `now`.
    pub fn started_with(
        id: String,
        turn_message_id: u128,
        turn_message_index: usize,
        sequence: u64,
        tool: &str,
        arguments: &str,
        now: i128,
    ) -> (a: AgentActivity)
        ensures
            a.id == id,
            a.turn_message_id == turn_message_id,
            a.turn_message_index == turn_message_index,
            a.sequence == Some(sequence),
            a.started_at == Some(now),
            a.completed_at is None,
            a.tool@ == tool@,
            a.kind == labels(tool@).kind,
            a.status == ActivityStatus::Running,
            a.title@ == labels(tool@).running,
            a.detail@ == detail_of_text(tool@, arguments@),
            a.change_id is None,
            a.live_change_id is None,
    {
        let (kind, running, _, _) = activity_labels(tool);
        AgentActivity {
            id,
            turn_message_id,
            turn_message_index,
            sequence: Some(sequence),
            started_at: Some(now),
            completed_at: None,
            tool: tool.to_owned(),
            kind,
            status: ActivityStatus::Running,
            title: running.to_owned(),
            detail: activity_detail(tool, arguments),
            change_id: None,
            live_change_id: None,
        }
    }

    /// A tool call that begins now.
    pub fn started(
        id: String,
        turn_message_id: u128,
        turn_message_index: usize,
        sequence: u64,
        tool: &str,
        arguments: &str,
    ) -> (a: AgentActivity)
        ensures
            a.id == id,
            a.turn_message_id == turn_message_id,
            a.turn_message_index == turn_message_index,
            a.sequence == Some(sequence),
            a.started_at is Some,
            a.completed_at is None,
            a.tool@ == tool@,
            a.kind == labels(tool@).kind,
            a.status == ActivityStatus::Running,
            a.title@ == labels(tool@).running,
            a.detail@ == detail_of_text(tool@, arguments@),
            a.change_id is None,
            a.live_change_id is None,
    {
        AgentActivity::started_with(
            id,
            turn_message_id,
            turn_message_index,
            sequence,
            tool,
            arguments,
            crate::clock::now(),
        )
    }

    /// Ends a tool call at `now`.
    pub fn finish_at(&mut self, succeeded: bool, now: i128)
        ensures
            *final(self) == (AgentActivity {
                status: final(self).status,
                title: final(self).title,
                completed_at: Some(now),
                ..*old(self)
            }),
            final(self).status == (if succeeded {
                ActivityStatus::Completed
            } else {
                ActivityStatus::Failed
            }),
            final(self).title@ == (if succeeded {
                labels(old(self).tool@).completed
            } else {
                labels(old(self).tool@).failed
            }),
    {
        let (_, _, completed, failed) = activity_labels(&self.tool);
        if succeeded {
            self.status = ActivityStatus::Completed;
            self.title = completed.to_owned();
        } else {
            self.status = ActivityStatus::Failed;
            self.title = failed.to_owned();
        }
        self.completed_at = Some(now);
    }

    /// Ends a tool call now.
    pub fn finish(&mut self, succeeded: bool)
        ensures
            *final(self) == (AgentActivity {
                status: final(self).status,
                title: final(self).title,
                completed_at: final(self).completed_at,
                ..*old(self)
            }),
            final(self).completed_at is Some,
            final(self).status == (if succeeded {
                ActivityStatus::Completed
            } else {
                ActivityStatus::Failed
            }),
            final(self).title@ == (if succeeded {
                labels(old(self).tool@).completed
            } else {
                labels(old(self).tool@).failed
            }),
    {
        self.finish_at(succeeded, crate::clock::now());
    }

    /// A note on the network, at `now`.
    fn note(
        id: String,
        turn_message_id: u128,
        turn_message_index: usize,
        sequence: u64,
        tool: &str,
        title: String,
        error: String,
        now: i128,
    ) -> (a: AgentActivity)
        ensures
            a == (AgentActivity {
                id,
                turn_message_id,
                turn_message_index,
                sequence: Some(sequence),
                started_at: Some(now),
                completed_at: Some(now),
                tool: a.tool,
                kind: ActivityKind::Network,
                status: ActivityStatus::Completed,
                title,
                detail: error,
                change_id: None,
                live_change_id: None,
            }),
            a.tool@ == tool@,
    {
        AgentActivity {
            id,
            turn_message_id,
            turn_message_index,
            sequence: Some(sequence),
            started_at: Some(now),
            completed_at: Some(now),
            tool: tool.to_owned(),
            kind: ActivityKind::Network,
            status: ActivityStatus::Completed,
            title,
            detail: error,
            change_id: None,
            live_change_id: None,
        }
    }

    /// A model request that is tried again, at `now`.
    pub fn model_retry(
        id: String,
        turn_message_id: u128,
        turn_message_index: usize,
        sequence: u64,
        retry: usize,
        max_retries: usize,
        error: String,
        now: i128,
    ) -> (a: AgentActivity)
        ensures
            a == (AgentActivity {
                id,
                turn_message_id,
                turn_message_index,
                sequence: Some(sequence),
                started_at: Some(now),
                completed_at: Some(now),
                tool: a.tool,
                kind: ActivityKind::Network,
                status: ActivityStatus::Completed,
                title: a.title,
                detail: error,
                change_id: None,
                live_change_id: None,
            }),
            a.tool@ == "model_request"@,
            a.title@ == "Retrying model request ("@ + text::decimal(retry as nat) + "/"@
                + text::decimal(max_retries as nat) + ")"@,
    {
        let title = retry_title("Retrying model request (", retry, max_retries);
        AgentActivity::note(
            id,
            turn_message_id,
            turn_message_index,
            sequence,
            "model_request",
            title,
            error,
            now,
        )
    }

    /// A model request that failed, at `now`.
    pub fn model_error(
        id: String,
        turn_message_id: u128,
        turn_message_index: usize,
        sequence: u64,
        error: String,
        now: i128,
    ) -> (a: AgentActivity)
        ensures
            a == (AgentActivity {
                id,
                turn_message_id,
                turn_message_index,
                sequence: Some(sequence),
                started_at: Some(now),
                completed_at: Some(now),
                tool: a.tool,
                kind: ActivityKind::Network,
                status: ActivityStatus::Failed,
                title: a.title,
                detail: error,
                change_id: None,
                live_change_id: None,
            }),
            a.tool@ == "model_request"@,
            a.title@ == "Model request failed"@,
    {
        let title = "Model request failed".to_owned();
        let a = AgentActivity::note(
            id,
            turn_message_id,
            turn_message_index,
            sequence,
            "model_request",
            title,
            error,
            now,
        );
        AgentActivity { status: ActivityStatus::Failed, ..a }
    }

    /// A compaction of the context that begins at `now`.
    pub fn compaction_started(
        id: String,
        turn_message_id: u128,
        turn_message_index: usize,
        sequence: u64,
        estimated_tokens: u64,
        now: i128,
    ) -> (a: AgentActivity)
        ensures
            a == (AgentActivity {
                id,
                turn_message_id,
                turn_message_index,
                sequence: Some(sequence),
                started_at: Some(now),
                completed_at: None,
                tool: a.tool,
                kind: ActivityKind::Other,
                status: ActivityStatus::Running,
                title: a.title,
                detail: a.detail,
                change_id: None,
                live_change_id: None,
            }),
            a.tool@ == "context_compaction"@,
            a.title@ == "Context compaction started"@,
            a.detail@ == "Estimated active context: "@ + text::decimal(estimated_tokens as nat)
                + " tokens"@,
    {
        AgentActivity {
            id,
            turn_message_id,
            turn_message_index,
            sequence: Some(sequence),
            started_at: Some(now),
            completed_at: None,
            tool: "context_compaction".to_owned(),
            kind: ActivityKind::Other,
            status: ActivityStatus::Running,
            title: "Context compaction started".to_owned(),
            detail: text::cat3(
                "Estimated active context: ",
                &text::to_decimal(estimated_tokens),
                " tokens",
            ),
            change_id: None,
            live_change_id: None,
        }
    }

    /// A compaction that is tried again, at `now`.
    pub fn compaction_retry(
        id: String,
        turn_message_id: u128,
        turn_message_index: usize,
        sequence: u64,
        retry: usize,
        max_retries: usize,
        error: String,
        now: i128,
    ) -> (a: AgentActivity)
        ensures
            a == (AgentActivity {
                id,
                turn_message_id,
                turn_message_index,
                sequence: Some(sequence),
                started_at: Some(now),
                completed_at: Some(now),
                tool: a.tool,
                kind: ActivityKind::Network,
                status: ActivityStatus::Completed,
                title: a.title,
                detail: error,
                change_id: None,
                live_change_id: None,
            }),
            a.tool@ == "context_compaction"@,
            a.title@ == "Retrying context compaction ("@ + text::decimal(retry as nat) + "/"@
                + text::decimal(max_retries as nat) + ")"@,
    {
        let title = retry_title("Retrying context compaction (", retry, max_retries);
        AgentActivity::note(
            id,
            turn_message_id,
            turn_message_index,
            sequence,
            "context_compaction",
            title,
            error,
            now,
        )
    }

    /// Ends a compaction at `now`.
    pub fn finish_compaction(
        &mut self,
        succeeded: bool,
        before_tokens: u64,
        after_tokens: Option<u64>,
        error: Option<&str>,
        now: i128,
    )
        ensures
            *final(self) == (AgentActivity {
                status: final(self).status,
                title: final(self).title,
                detail: final(self).detail,
                completed_at: Some(now),
                ..*old(self)
            }),
            succeeded ==> final(self).status == ActivityStatus::Completed && final(self).title@
                == "Context compacted"@ && final(self).detail@ == text::decimal(
                before_tokens as nat,
            ) + " → "@ + text::decimal(
                (match after_tokens {
                    Some(n) => n as nat,
                    None => 0,
                }),
            ) + " tokens"@,
            !succeeded ==> final(self).status == ActivityStatus::Failed && final(self).title@
                == "Context compaction failed"@ && final(self).detail@ == (match error {
                Some(e) => e@,
                None => "the provider returned no usable summary"@,
            }),
    {
        self.completed_at = Some(now);
        if succeeded {
            self.status = ActivityStatus::Completed;
            self.title = "Context compacted".to_owned();
            let after: u64 = match after_tokens {
                Some(n) => n,
                None => 0,
            };
            self.detail = text::cat4(
                &text::to_decimal(before_tokens),
                " → ",
                &text::to_decimal(after),
                " tokens",
            );
        } else {
            self.status = ActivityStatus::Failed;
            self.title = "Context compaction failed".to_owned();
            self.detail = match error {
                Some(e) => e.to_owned(),
                None => "the provider returned no usable summary".to_owned(),
            };
        }
    }
}

// ---------------------------------------------------------------------------
// Laws
/// A title tells what is being done while a tool runs, and that it failed where it did.
pub proof fn titles_tell_how_far_a_tool_is(tool: Seq<char>)
    ensures
        text::contains_text(labels(tool).running, "ing"@),
        text::contains_text(labels(tool).failed, "ailed"@),
{
    assert(text::occurs_at("Listing"@, "ing"@, 4)) by {
        reveal_strlit("Listing");
        reveal_strlit("ing");
        assert("Listing"@.subrange(4, 7) == "ing"@);
    }
    assert(text::occurs_at("Failed to list"@, "ailed"@, 1)) by {
        reveal_strlit("Failed to list");
        reveal_strlit("ailed");
        assert("Failed to list"@.subrange(1, 6) == "ailed"@);
    }
    assert(text::occurs_at("Reading"@, "ing"@, 4)) by {
        reveal_strlit("Reading");
        reveal_strlit("ing");
        assert("Reading"@.subrange(4, 7) == "ing"@);
    }
    assert(text::occurs_at("Failed to read"@, "ailed"@, 1)) by {
        reveal_strlit("Failed to read");
        reveal_strlit("ailed");
        assert("Failed to read"@.subrange(1, 6) == "ailed"@);
    }
    assert(text::occurs_at("Searching"@, "ing"@, 6)) by {
        reveal_strlit("Searching");
        reveal_strlit("ing");
        assert("Searching"@.subrange(6, 9) == "ing"@);
    }
    assert(text::occurs_at("Search failed"@, "ailed"@, 8)) by {
        reveal_strlit("Search failed");
        reveal_strlit("ailed");
        assert("Search failed"@.subrange(8, 13) == "ailed"@);
    }
    assert(text::occurs_at("Writing"@, "ing"@, 4)) by {
        reveal_strlit("Writing");
        reveal_strlit("ing");
        assert("Writing"@.subrange(4, 7) == "ing"@);
    }
    assert(text::occurs_at("Failed to write"@, "ailed"@, 1)) by {
        reveal_strlit("Failed to write");
        reveal_strlit("ailed");
        assert("Failed to write"@.subrange(1, 6) == "ailed"@);
    }
    assert(text::occurs_at("Editing"@, "ing"@, 4)) by {
        reveal_strlit("Editing");
        reveal_strlit("ing");
        assert("Editing"@.subrange(4, 7) == "ing"@);
    }
    assert(text::occurs_at("Failed to edit"@, "ailed"@, 1)) by {
        reveal_strlit("Failed to edit");
        reveal_strlit("ailed");
        assert("Failed to edit"@.subrange(1, 6) == "ailed"@);
    }
    assert(text::occurs_at("Running command"@, "ing"@, 4)) by {
        reveal_strlit("Running command");
        reveal_strlit("ing");
        assert("Running command"@.subrange(4, 7) == "ing"@);
    }
    assert(text::occurs_at("Command failed"@, "ailed"@, 9)) by {
        reveal_strlit("Command failed");
        reveal_strlit("ailed");
        assert("Command failed"@.subrange(9, 14) == "ailed"@);
    }
    assert(text::occurs_at("Interacting with terminal"@, "ing"@, 8)) by {
        reveal_strlit("Interacting with terminal");
        reveal_strlit("ing");
        assert("Interacting with terminal"@.subrange(8, 11) == "ing"@);
    }
    assert(text::occurs_at("Terminal interaction failed"@, "ailed"@, 22)) by {
        reveal_strlit("Terminal interaction failed");
        reveal_strlit("ailed");
        assert("Terminal interaction failed"@.subrange(22, 27) == "ailed"@);
    }
    assert(text::occurs_at("Observing terminal"@, "ing"@, 6)) by {
        reveal_strlit("Observing terminal");
        reveal_strlit("ing");
        assert("Observing terminal"@.subrange(6, 9) == "ing"@);
    }
    assert(text::occurs_at("Terminal observation failed"@, "ailed"@, 22)) by {
        reveal_strlit("Terminal observation failed");
        reveal_strlit("ailed");
        assert("Terminal observation failed"@.subrange(22, 27) == "ailed"@);
    }
    assert(text::occurs_at("Closing terminal"@, "ing"@, 4)) by {
        reveal_strlit("Closing terminal");
        reveal_strlit("ing");
        assert("Closing terminal"@.subrange(4, 7) == "ing"@);
    }
    assert(text::occurs_at("Failed to close terminal"@, "ailed"@, 1)) by {
        reveal_strlit("Failed to close terminal");
        reveal_strlit("ailed");
        assert("Failed to close terminal"@.subrange(1, 6) == "ailed"@);
    }
    assert(text::occurs_at("Listing terminals"@, "ing"@, 4)) by {
        reveal_strlit("Listing terminals");
        reveal_strlit("ing");
        assert("Listing terminals"@.subrange(4, 7) == "ing"@);
    }
    assert(text::occurs_at("Failed to list terminals"@, "ailed"@, 1)) by {
        reveal_strlit("Failed to list terminals");
        reveal_strlit("ailed");
        assert("Failed to list terminals"@.subrange(1, 6) == "ailed"@);
    }
    assert(text::occurs_at("Loading skill"@, "ing"@, 4)) by {
        reveal_strlit("Loading skill");
        reveal_strlit("ing");
        assert("Loading skill"@.subrange(4, 7) == "ing"@);
    }
    assert(text::occurs_at("Failed to load skill"@, "ailed"@, 1)) by {
        reveal_strlit("Failed to load skill");
        reveal_strlit("ailed");
        assert("Failed to load skill"@.subrange(1, 6) == "ailed"@);
    }
    assert(text::occurs_at("Reading skill file"@, "ing"@, 4)) by {
        reveal_strlit("Reading skill file");
        reveal_strlit("ing");
        assert("Reading skill file"@.subrange(4, 7) == "ing"@);
    }
    assert(text::occurs_at("Failed to read skill file"@, "ailed"@, 1)) by {
        reveal_strlit("Failed to read skill file");
        reveal_strlit("ailed");
        assert("Failed to read skill file"@.subrange(1, 6) == "ailed"@);
    }
    assert(text::occurs_at("Creating delegated session"@, "ing"@, 5)) by {
        reveal_strlit("Creating delegated session");
        reveal_strlit("ing");
        assert("Creating delegated session"@.subrange(5, 8) == "ing"@);
    }
    assert(text::occurs_at("Failed to create delegated session"@, "ailed"@, 1)) by {
        reveal_strlit("Failed to create delegated session");
        reveal_strlit("ailed");
        assert("Failed to create delegated session"@.subrange(1, 6) == "ailed"@);
    }
    assert(text::occurs_at("Listing sessions"@, "ing"@, 4)) by {
        reveal_strlit("Listing sessions");
        reveal_strlit("ing");
        assert("Listing sessions"@.subrange(4, 7) == "ing"@);
    }
    assert(text::occurs_at("Failed to list sessions"@, "ailed"@, 1)) by {
        reveal_strlit("Failed to list sessions");
        reveal_strlit("ailed");
        assert("Failed to list sessions"@.subrange(1, 6) == "ailed"@);
    }
    assert(text::occurs_at("Checking session status"@, "ing"@, 5)) by {
        reveal_strlit("Checking session status");
        reveal_strlit("ing");
        assert("Checking session status"@.subrange(5, 8) == "ing"@);
    }
    assert(text::occurs_at("Failed to check session status"@, "ailed"@, 1)) by {
        reveal_strlit("Failed to check session status");
        reveal_strlit("ailed");
        assert("Failed to check session status"@.subrange(1, 6) == "ailed"@);
    }
    assert(text::occurs_at("Reading session messages"@, "ing"@, 4)) by {
        reveal_strlit("Reading session messages");
        reveal_strlit("ing");
        assert("Reading session messages"@.subrange(4, 7) == "ing"@);
    }
    assert(text::occurs_at("Failed to read session messages"@, "ailed"@, 1)) by {
        reveal_strlit("Failed to read session messages");
        reveal_strlit("ailed");
        assert("Failed to read session messages"@.subrange(1, 6) == "ailed"@);
    }
    assert(text::occurs_at("Sending to session"@, "ing"@, 4)) by {
        reveal_strlit("Sending to session");
        reveal_strlit("ing");
        assert("Sending to session"@.subrange(4, 7) == "ing"@);
    }
    assert(text::occurs_at("Failed to send to session"@, "ailed"@, 1)) by {
        reveal_strlit("Failed to send to session");
        reveal_strlit("ailed");
        assert("Failed to send to session"@.subrange(1, 6) == "ailed"@);
    }
    assert(text::occurs_at("Stopping session turn"@, "ing"@, 5)) by {
        reveal_strlit("Stopping session turn");
        reveal_strlit("ing");
        assert("Stopping session turn"@.subrange(5, 8) == "ing"@);
    }
    assert(text::occurs_at("Failed to stop session turn"@, "ailed"@, 1)) by {
        reveal_strlit("Failed to stop session turn");
        reveal_strlit("ailed");
        assert("Failed to stop session turn"@.subrange(1, 6) == "ailed"@);
    }
    assert(text::occurs_at("Waiting for sessions"@, "ing"@, 4)) by {
        reveal_strlit("Waiting for sessions");
        reveal_strlit("ing");
        assert("Waiting for sessions"@.subrange(4, 7) == "ing"@);
    }
    assert(text::occurs_at("Failed while waiting for sessions"@, "ailed"@, 1)) by {
        reveal_strlit("Failed while waiting for sessions");
        reveal_strlit("ailed");
        assert("Failed while waiting for sessions"@.subrange(1, 6) == "ailed"@);
    }
    assert(text::occurs_at("Using tool"@, "ing"@, 2)) by {
        reveal_strlit("Using tool");
        reveal_strlit("ing");
        assert("Using tool"@.subrange(2, 5) == "ing"@);
    }
    assert(text::occurs_at("Tool failed"@, "ailed"@, 6)) by {
        reveal_strlit("Tool failed");
        reveal_strlit("ailed");
        assert("Tool failed"@.subrange(6, 11) == "ailed"@);
    }
}

/// A tool counts as what it does: exactly those that change files as writing, those on commands and
/// terminals as the shell, the search as a search and those on skills as a skill.
pub proof fn tools_count_as_what_they_do(tool: Seq<char>)
    ensures
        labels(tool).kind == ActivityKind::Write <==> tool == "write_file"@ || tool
            == "replace_in_file"@,
        labels(tool).kind == ActivityKind::Search <==> tool == "search"@,
        labels(tool).kind == ActivityKind::Shell <==> tool == "shell"@ || tool
            == "shell_noninteractive"@ || tool == "terminal_input"@ || tool == "terminal_read"@ || tool
            == "terminal_close"@ || tool == "terminal_list"@,
        labels(tool).kind == ActivityKind::Skill <==> tool == "load_skill"@ || tool
            == "read_skill_file"@,
        labels(tool).kind == ActivityKind::Read <==> tool == "list_files"@ || tool == "read_file"@
            || tool == "session_list"@ || tool == "session_status"@ || tool == "session_messages"@
            || tool == "session_wait"@,
        labels(tool).kind != ActivityKind::Network,
{
    lemma_tool_names();
}

proof fn lemma_tool_names()
    ensures
        "list_files"@.len() == 10,
        "read_file"@.len() == 9,
        "search"@.len() == 6,
        "write_file"@.len() == 10,
        "replace_in_file"@.len() == 15,
        "shell"@.len() == 5,
        "shell_noninteractive"@.len() == 20,
        "terminal_input"@.len() == 14,
        "terminal_read"@.len() == 13,
        "terminal_close"@.len() == 14,
        "terminal_list"@.len() == 13,
        "load_skill"@.len() == 10,
        "read_skill_file"@.len() == 15,
        "session_create"@.len() == 14,
        "session_list"@.len() == 12,
        "session_status"@.len() == 14,
        "session_messages"@.len() == 16,
        "session_send"@.len() == 12,
        "session_stop"@.len() == 12,
        "session_wait"@.len() == 12,
        "list_files"@[0] == 'l',
        "write_file"@[0] == 'w',
        "load_skill"@[0] == 'l',
        "load_skill"@[1] == 'o',
        "list_files"@[1] == 'i',
        "terminal_list"@[0] == 't',
        "terminal_read"@[0] == 't',
        "terminal_read"@[9] == 'r',
        "terminal_list"@[9] == 'l',
        "terminal_input"@[9] == 'i',
        "terminal_close"@[9] == 'c',
        "terminal_input"@[0] == 't',
        "terminal_close"@[0] == 't',
        "session_create"@[0] == 's',
        "session_status"@[0] == 's',
        "session_list"@[0] == 's',
        "session_send"@[0] == 's',
        "session_stop"@[0] == 's',
        "session_wait"@[0] == 's',
        "session_create"@[8] == 'c',
        "session_status"@[8] == 's',
        "session_list"@[8] == 'l',
        "session_send"@[8] == 's',
        "session_stop"@[8] == 's',
        "session_wait"@[8] == 'w',
        "session_send"@[9] == 'e',
        "session_stop"@[9] == 't',
        "replace_in_file"@[2] == 'p',
        "read_skill_file"@[2] == 'a',
        "replace_in_file"@[0] == 'r',
{
    reveal_strlit("list_files");
    reveal_strlit("read_file");
    reveal_strlit("search");
    reveal_strlit("write_file");
    reveal_strlit("replace_in_file");
    reveal_strlit("shell");
    reveal_strlit("shell_noninteractive");
    reveal_strlit("terminal_input");
    reveal_strlit("terminal_read");
    reveal_strlit("terminal_close");
    reveal_strlit("terminal_list");
    reveal_strlit("load_skill");
    reveal_strlit("read_skill_file");
    reveal_strlit("session_create");
    reveal_strlit("session_list");
    reveal_strlit("session_status");
    reveal_strlit("session_messages");
    reveal_strlit("session_send");
    reveal_strlit("session_stop");
    reveal_strlit("session_wait");
}

/// An activity is about what its tool was asked for: a search for what it looks for, a command for the
/// command, a file for its path, a terminal for its id and a skill for its name.
pub proof fn activities_are_about_what_was_asked_for(arguments: JsonView, s: Seq<char>)
    ensures
        arguments.text_field("command"@) == Some(s) ==> detail_of("shell"@, arguments) == s
            && detail_of("shell_noninteractive"@, arguments) == s,
        arguments.text_field("path"@) == Some(s) ==> detail_of("read_file"@, arguments) == s
            && detail_of("write_file"@, arguments) == s && detail_of("replace_in_file"@, arguments)
            == s && detail_of("list_files"@, arguments) == s,
        arguments.text_field("path"@) is None ==> detail_of("list_files"@, arguments) == "."@,
        arguments.text_field("terminal_id"@) == Some(s) ==> detail_of("terminal_input"@, arguments)
            == s && detail_of("terminal_read"@, arguments) == s && detail_of(
            "terminal_close"@,
            arguments,
        ) == s,
        arguments.text_field("name"@) == Some(s) ==> detail_of("load_skill"@, arguments) == s,
        arguments.text_field("session_id"@) == Some(s) ==> detail_of("session_send"@, arguments)
            == s && detail_of("session_stop"@, arguments) == s && detail_of(
            "session_messages"@,
            arguments,
        ) == s,
        arguments.text_field("query"@) == Some(s) ==> text::begins_with(
            detail_of("search"@, arguments),
            text::quoted(s),
        ),
{
    lemma_tool_names();
    let q = text::quoted(s);
    if arguments.text_field("query"@) == Some(s) {
        let d = detail_of("search"@, arguments);
        assert(d.subrange(0, q.len() as int) == q);
    }
}

/// Sessions are counted where they are listed.
pub proof fn sessions_are_counted(arguments: JsonView, items: Seq<JsonView>)
    ensures
        arguments.field("session_ids"@) == Some(JsonView::Array(items)) ==> text::begins_with(
            detail_of("session_status"@, arguments),
            text::decimal(items.len()),
        ),
        arguments.field("targets"@) == Some(JsonView::Array(items)) ==> text::begins_with(
            detail_of("session_wait"@, arguments),
            text::decimal(items.len()),
        ),
{
    lemma_tool_names();
    let d = text::decimal(items.len());
    let s = d + " session(s)"@;
    assert(s.subrange(0, d.len() as int) == d);
}

/// Where the arguments of a tool cannot be read, its activity is about the tool.
pub proof fn unreadable_arguments_leave_the_tool(tool: Seq<char>, arguments: Seq<char>)
    ensures
        json::read_json(arguments) is Err ==> detail_of_text(tool, arguments) == tool,
        json::read_json(arguments) matches Ok(j) ==> detail_of_text(tool, arguments) == detail_of(
            tool,
            j,
        ),
{
}

/// A tool call that ends is completed where it succeeded and failed where it did not; what it was
/// about stays.
pub proof fn an_activity_ends_as_its_call(a: &mut AgentActivity, succeeded: bool, now: i128)
    requires
        call_ensures(AgentActivity::finish_at, (a, succeeded, now), ()),
    ensures
        final(a).status == ActivityStatus::Completed <==> succeeded,
        final(a).status == ActivityStatus::Failed <==> !succeeded,
        final(a).completed_at == Some(now),
        final(a).id == old(a).id,
        final(a).detail == old(a).detail,
        final(a).tool == old(a).tool,
        final(a).started_at == old(a).started_at,
        !succeeded ==> text::contains_text(final(a).title@, "ailed"@),
{
    titles_tell_how_far_a_tool_is(old(a).tool@);
}

} // verus!
