//! Sessions while they run: how they are listed, shown and followed.
use crate::hierarchy;
use crate::hierarchy::SessionSummary;
use crate::json;
use crate::json::{Json, JsonView};
use crate::lists;
use crate::message;
use crate::payload;
use crate::screen::{TerminalProcessState, TerminalRecord};
use crate::session::Session;
use crate::text;
use crate::upload::SessionScope;
use vstd::prelude::*;
use vstd::string::*;

verus! {

// ---------------------------------------------------------------------------
// The list of sessions

/// The sessions of a project, or those of none.
#[derive(Debug)]
pub struct ListedProject {
    pub root: Option<String>,
    pub sessions: Vec<SessionSummary>,
}

/// The sessions of a project, or those of none.
#[verifier::ext_equal]
pub struct ListedView {
    pub root: Option<Seq<char>>,
    pub sessions: Seq<SessionSummary>,
}

impl View for ListedProject {
    type V = ListedView;

    open spec fn view(&self) -> ListedView {
        ListedView { root: message::opt_view(self.root), sessions: self.sessions@ }
    }
}

/// Lists of sessions.
pub open spec fn listed_views(v: Seq<ListedProject>) -> Seq<ListedView> {
    Seq::new(v.len(), |i: int| v[i]@)
}

/// What a person has done to a session in the list.
#[derive(Clone, Copy, Debug, PartialEq, Eq, Structural)]
pub struct SessionMarks {
    /// Whether a person gave it its title.
    pub manual_title: bool,
    pub pinned_at: Option<i128>,
    pub archived_at: Option<i128>,
}

/// What is shown beside an open session in the list.
#[derive(Debug)]
pub struct ListedMarks {
    pub kept: SessionMarks,
    /// Whether a session that it comes from is put away.
    pub archived_by_ancestor: bool,
    /// Whether it only leads to where the session is listed.
    pub shortcut: bool,
    /// The titles of the sessions that it comes from.
    pub ancestor_titles: Vec<String>,
    pub active_terminal_count: usize,
}

/// An open session, as it is listed.
#[derive(Debug)]
pub struct LiveSession {
    pub scope: SessionScope,
    pub project_root: String,
    pub summary: SessionSummary,
    pub marks: ListedMarks,
}

impl LiveSession {
    /// The project that the session belongs to.
    pub open spec fn root(self) -> Option<Seq<char>> {
        match self.scope {
            SessionScope::Project => Some(self.project_root@),
            SessionScope::NoProject => None,
        }
    }
}

/// What is listed of an open session: what it tells last stands for what is saved.
pub fn live_summary(session: &Session, title: String, latest_event_at: i128) -> (r: SessionSummary)
    ensures
        r == (SessionSummary {
            id: session.id,
            parent_session_id: session.parent_session_id,
            scheduled_run: session.scheduled_run,
            created_at: session.created_at,
            updated_at: latest_event_at,
            title,
            model: session.model,
            depth: 0,
            descendant_count: 0,
        }),
{
    let mut r = session.summary();
    r.updated_at = latest_event_at;
    r.title = title;
    r
}

/// How many of the first `n` terminals run.
pub open spec fn running_count(terminals: Seq<TerminalRecord>, n: nat) -> nat
    decreases n,
{
    if n == 0 {
        0
    } else if terminals[n - 1].state == TerminalProcessState::Running {
        running_count(terminals, (n - 1) as nat) + 1
    } else {
        running_count(terminals, (n - 1) as nat)
    }
}

/// How many terminals run.
pub fn active_terminal_count(terminals: &Vec<TerminalRecord>) -> (n: usize)
    ensures
        n == running_count(terminals@, terminals@.len()),
{
    let mut n: usize = 0;
    let mut i: usize = 0;
    while i < terminals.len()
        invariant
            n <= i <= terminals@.len(),
            n == running_count(terminals@, i as nat),
        decreases terminals@.len() - i,
    {
        if terminals[i].state == TerminalProcessState::Running {
            n += 1;
        }
        i += 1;
    }
    n
}

/// An open session as it is listed: what it tells last stands for what is saved, it stands for itself
/// alone, and its terminals that run are counted.
pub fn live_session(
    session: &Session,
    scope: SessionScope,
    project_root: String,
    title: String,
    latest_event_at: i128,
    kept: SessionMarks,
) -> (r: LiveSession)
    ensures
        r.scope == scope,
        r.project_root == project_root,
        r.summary == (SessionSummary {
            id: session.id,
            parent_session_id: session.parent_session_id,
            scheduled_run: session.scheduled_run,
            created_at: session.created_at,
            updated_at: latest_event_at,
            title,
            model: session.model,
            depth: 0,
            descendant_count: 0,
        }),
        r.marks.kept == kept,
        !r.marks.archived_by_ancestor,
        !r.marks.shortcut,
        r.marks.ancestor_titles@.len() == 0,
        r.marks.active_terminal_count == running_count(
            session.terminals@,
            session.terminals@.len(),
        ),
{
    LiveSession {
        scope,
        project_root,
        summary: live_summary(session, title, latest_event_at),
        marks: ListedMarks {
            kept,
            archived_by_ancestor: false,
            shortcut: false,
            ancestor_titles: Vec::new(),
            active_terminal_count: active_terminal_count(&session.terminals),
        },
    }
}

/// The position of the first list of a project at or after `i`.
pub open spec fn project_at(projects: Seq<ListedView>, root: Option<Seq<char>>, i: int) -> int
    decreases projects.len() - i,
{
    if i >= projects.len() {
        projects.len() as int
    } else if projects[i].root == root {
        i
    } else {
        project_at(projects, root, i + 1)
    }
}

/// The position of the first session of an id at or after `i`.
pub open spec fn session_at(sessions: Seq<SessionSummary>, id: u128, i: int) -> int
    decreases sessions.len() - i,
{
    if i >= sessions.len() {
        sessions.len() as int
    } else if sessions[i].id == id {
        i
    } else {
        session_at(sessions, id, i + 1)
    }
}

/// Sessions with one: in place of the one of its id, or else behind the others.
pub open spec fn with_session(sessions: Seq<SessionSummary>, s: SessionSummary) -> Seq<SessionSummary> {
    let at = session_at(sessions, s.id, 0);
    if at < sessions.len() {
        sessions.update(at, s)
    } else {
        sessions.push(s)
    }
}

/// Lists with an open session, in the list of its project, or else in a list of its own.
pub open spec fn with_live(projects: Seq<ListedView>, live: LiveSession) -> Seq<ListedView> {
    let at = project_at(projects, live.root(), 0);
    if at < projects.len() {
        projects.update(
            at,
            ListedView {
                root: projects[at].root,
                sessions: with_session(projects[at].sessions, live.summary),
            },
        )
    } else {
        projects.push(ListedView { root: live.root(), sessions: seq![live.summary] })
    }
}

/// Lists with the first `n` open sessions.
pub open spec fn with_all_live(projects: Seq<ListedView>, live: Seq<LiveSession>, n: nat) -> Seq<
    ListedView,
>
    decreases n,
{
    if n == 0 {
        projects
    } else {
        with_live(with_all_live(projects, live, (n - 1) as nat), live[n - 1])
    }
}

/// Lists with each session right under the one that started it.
pub open spec fn arranged_lists(projects: Seq<ListedView>) -> Seq<ListedView> {
    Seq::new(
        projects.len(),
        |i: int|
            ListedView {
                root: projects[i].root,
                sessions: hierarchy::summaries_at(
                    projects[i].sessions,
                    hierarchy::arranged(projects[i].sessions),
                ),
            },
    )
}

fn same_root(root: &Option<String>, live: &LiveSession) -> (r: bool)
    ensures
        r == (message::opt_view(*root) == live.root()),
{
    match (root, live.scope) {
        (Some(r), SessionScope::Project) => text::same(r, &live.project_root),
        (None, SessionScope::NoProject) => true,
        _ => false,
    }
}

fn put_session(sessions: &mut Vec<SessionSummary>, s: SessionSummary)
    ensures
        final(sessions)@ == with_session(old(sessions)@, s),
{
    let ghost before = sessions@;
    let mut i: usize = 0;
    while i < sessions.len() && sessions[i].id != s.id
        invariant
            i <= sessions@.len(),
            sessions@ == before,
            session_at(before, s.id, 0) == session_at(before, s.id, i as int),
        decreases sessions@.len() - i,
    {
        i += 1;
    }
    if i < sessions.len() {
        sessions.set(i, s);
    } else {
        sessions.push(s);
    }
}

fn put_live(projects: &mut Vec<ListedProject>, live: LiveSession)
    ensures
        listed_views(final(projects)@) == with_live(listed_views(old(projects)@), live),
{
    let ghost before = projects@;
    let ghost views = listed_views(before);
    let mut i: usize = 0;
    while i < projects.len() && !same_root(&projects[i].root, &live)
        invariant
            i <= projects@.len(),
            projects@ == before,
            views == listed_views(before),
            project_at(views, live.root(), 0) == project_at(views, live.root(), i as int),
        decreases projects@.len() - i,
    {
        assert(views[i as int] == before[i as int]@);
        i += 1;
    }
    if i < projects.len() {
        assert(views[i as int] == before[i as int]@);
        put_session(&mut projects[i].sessions, live.summary);
        assert(listed_views(projects@) == with_live(views, live));
    } else {
        let ghost root = live.root();
        let root = match live.scope {
            SessionScope::Project => Some(live.project_root),
            SessionScope::NoProject => None,
        };
        let mut sessions: Vec<SessionSummary> = Vec::new();
        sessions.push(live.summary);
        let ghost s = live.summary;
        assert(sessions@ == seq![s]);
        projects.push(ListedProject { root, sessions });
        assert(listed_views(projects@) == with_live(views, live));
    }
}

/// The sessions of every project as they are listed: the saved ones, with what the open ones tell in
/// their place, each right under the one that started it.
pub fn live_session_projects(projects: Vec<ListedProject>, live: Vec<LiveSession>) -> (r: Vec<
    ListedProject,
>)
    ensures
        listed_views(r@) == arranged_lists(
            with_all_live(listed_views(projects@), live@, live@.len()),
        ),
{
    let ghost all = live@;
    let ghost start = listed_views(projects@);
    let mut reversed = lists::reversed(live);
    assert(all.skip(0) == all);
    let mut r = projects;
    let ghost mut n: nat = 0;
    while reversed.len() > 0
        invariant
            n <= all.len(),
            reversed@.len() == all.len() - n,
            reversed@ == all.skip(n as int).reverse(),
            listed_views(r@) == with_all_live(start, all, n),
        decreases reversed@.len(),
    {
        proof {
            lists::lemma_next(all, reversed@, n as int);
        }
        if let Some(s) = reversed.pop() {
            put_live(&mut r, s);
        }
        proof {
            n = n + 1;
        }
    }
    let ghost merged = r@;
    let mut i: usize = 0;
    while i < r.len()
        invariant
            i <= r@.len(),
            r@.len() == merged.len(),
            forall|j: int| i <= j < r@.len() ==> #[trigger] r@[j] == merged[j],
            forall|j: int|
                0 <= j < i ==> (#[trigger] r@[j])@ == arranged_lists(listed_views(merged))[j],
        decreases r@.len() - i,
    {
        hierarchy::arrange_session_tree(&mut r[i].sessions);
        assert(r@[i as int]@ == arranged_lists(listed_views(merged))[i as int]);
        i += 1;
    }
    assert(listed_views(r@) == arranged_lists(listed_views(merged)));
    r
}

proof fn lemma_session_at(sessions: Seq<SessionSummary>, id: u128, i: int)
    requires
        0 <= i <= sessions.len(),
    ensures
        i <= session_at(sessions, id, i) <= sessions.len(),
        session_at(sessions, id, i) < sessions.len() ==> sessions[session_at(sessions, id, i)].id
            == id,
    decreases sessions.len() - i,
{
    if i < sessions.len() && sessions[i].id != id {
        lemma_session_at(sessions, id, i + 1);
    }
}

proof fn lemma_project_at(projects: Seq<ListedView>, root: Option<Seq<char>>, i: int)
    requires
        0 <= i <= projects.len(),
    ensures
        i <= project_at(projects, root, i) <= projects.len(),
        project_at(projects, root, i) < projects.len() ==> projects[project_at(
            projects,
            root,
            i,
        )].root == root,
    decreases projects.len() - i,
{
    if i < projects.len() && projects[i].root != root {
        lemma_project_at(projects, root, i + 1);
    }
}

/// An open session is in the list of its project, as it tells itself, and lists of other projects are
/// as they were.
pub proof fn open_sessions_are_listed(projects: Seq<ListedView>, live: LiveSession)
    ensures
        exists|i: int|
            0 <= i < with_live(projects, live).len() && (#[trigger] with_live(
                projects,
                live,
            )[i]).root == live.root() && with_live(projects, live)[i].sessions.contains(
                live.summary,
            ),
        forall|i: int|
            0 <= i < projects.len() && projects[i].root != live.root() ==> #[trigger] with_live(
                projects,
                live,
            )[i] == projects[i],
{
    let at = project_at(projects, live.root(), 0);
    lemma_project_at(projects, live.root(), 0);
    let after = with_live(projects, live);
    if at < projects.len() {
        let sessions = projects[at].sessions;
        let k = session_at(sessions, live.summary.id, 0);
        lemma_session_at(sessions, live.summary.id, 0);
        let then = with_session(sessions, live.summary);
        if k < sessions.len() {
            assert(then[k] == live.summary);
        } else {
            assert(then[sessions.len() as int] == live.summary);
        }
        assert(after[at].sessions.contains(live.summary));
    } else {
        assert(after[at].sessions[0] == live.summary);
        assert(after[at].sessions.contains(live.summary));
    }
}

// ---------------------------------------------------------------------------
// A session as it is shown

/// How far a conversation is.
#[derive(Clone, Copy, Debug, PartialEq, Eq, Structural)]
pub enum ConversationLifecycle {
    Idle,
    Running,
    Stopping,
}

/// Whether a turn of the conversation is under way.
pub open spec fn is_under_way(lifecycle: ConversationLifecycle) -> bool {
    lifecycle == ConversationLifecycle::Running || lifecycle == ConversationLifecycle::Stopping
}

/// Whether a turn of the conversation is under way.
pub fn under_way(lifecycle: ConversationLifecycle) -> (r: bool)
    ensures
        r == is_under_way(lifecycle),
{
    lifecycle == ConversationLifecycle::Running || lifecycle == ConversationLifecycle::Stopping
}

/// What a running turn tells of a session.
#[derive(Debug)]
pub struct Observation {
    pub lifecycle: ConversationLifecycle,
    pub title: Json,
    pub updated_at: Json,
    pub messages: Json,
    pub activities: Json,
}

/// A session as it is shown: where a turn is under way, with what it tells, and else with the messages
/// of the active branch.
pub open spec fn shown_session(
    fields: payload::Fields,
    observation: Option<Observation>,
    messages: JsonView,
    active_ids: JsonView,
    branch_nodes: JsonView,
) -> payload::Fields {
    let told = match observation {
        Some(o) if is_under_way(o.lifecycle) => json::set_in(
            json::set_in(
                json::set_in(
                    json::set_in(fields, "title"@, o.title@),
                    "updated_at"@,
                    o.updated_at@,
                ),
                "messages"@,
                o.messages@,
            ),
            "activities"@,
            o.activities@,
        ),
        _ => json::set_in(fields, "messages"@, messages),
    };
    json::set_in(
        json::set_in(told, "active_message_ids"@, active_ids),
        "branch_nodes"@,
        branch_nodes,
    )
}

/// A session as it is shown: `fields` are those that are stored of it.
pub fn web_session(
    fields: Vec<(String, Json)>,
    observation: Option<Observation>,
    messages: Json,
    active_ids: Json,
    branch_nodes: Json,
) -> (r: Vec<(String, Json)>)
    ensures
        json::field_views(r@) == shown_session(
            json::field_views(fields@),
            observation,
            messages@,
            active_ids@,
            branch_nodes@,
        ),
{
    let told = match observation {
        Some(o) => if under_way(o.lifecycle) {
            let f = json::set_field(fields, "title", o.title);
            let f = json::set_field(f, "updated_at", o.updated_at);
            let f = json::set_field(f, "messages", o.messages);
            json::set_field(f, "activities", o.activities)
        } else {
            json::set_field(fields, "messages", messages)
        },
        None => json::set_field(fields, "messages", messages),
    };
    let told = json::set_field(told, "active_message_ids", active_ids);
    json::set_field(told, "branch_nodes", branch_nodes)
}

/// While a turn is under way, a session is shown as the turn tells it, and not as it was saved; else
/// with the messages of its active branch.
pub proof fn running_sessions_show_what_they_tell(
    fields: payload::Fields,
    observation: Option<Observation>,
    messages: JsonView,
    active_ids: JsonView,
    branch_nodes: JsonView,
)
    ensures
        ({
            let r = JsonView::Object(
                shown_session(fields, observation, messages, active_ids, branch_nodes),
            );
            &&& r.field("branch_nodes"@) == Some(branch_nodes)
            &&& r.field("active_message_ids"@) == Some(active_ids)
            &&& match observation {
                Some(o) if is_under_way(o.lifecycle) => {
                    &&& r.field("title"@) == Some(o.title@)
                    &&& r.field("updated_at"@) == Some(o.updated_at@)
                    &&& r.field("messages"@) == Some(o.messages@)
                    &&& r.field("activities"@) == Some(o.activities@)
                },
                _ => {
                    &&& r.field("messages"@) == Some(messages)
                    &&& r.field("title"@) == JsonView::Object(fields).field("title"@)
                },
            }
        }),
{
    reveal_strlit("title");
    reveal_strlit("updated_at");
    reveal_strlit("messages");
    reveal_strlit("activities");
    reveal_strlit("active_message_ids");
    reveal_strlit("branch_nodes");
    assert("title"@.len() == 5 && "updated_at"@.len() == 10 && "messages"@.len() == 8);
    assert("activities"@.len() == 10 && "active_message_ids"@.len() == 18);
    assert("branch_nodes"@.len() == 12);
    assert("updated_at"@[0] == 'u' && "activities"@[0] == 'a');
    let empty = JsonView::Null;
    match observation {
        Some(o) if is_under_way(o.lifecycle) => {
            let a = json::set_in(fields, "title"@, o.title@);
            let b = json::set_in(a, "updated_at"@, o.updated_at@);
            let c = json::set_in(b, "messages"@, o.messages@);
            let d = json::set_in(c, "activities"@, o.activities@);
            let e = json::set_in(d, "active_message_ids"@, active_ids);
            json::a_set_field_reads_back(fields, "title"@, o.title@, "title"@);
            json::a_set_field_reads_back(a, "updated_at"@, o.updated_at@, "title"@);
            json::a_set_field_reads_back(b, "messages"@, o.messages@, "title"@);
            json::a_set_field_reads_back(b, "messages"@, o.messages@, "updated_at"@);
            json::a_set_field_reads_back(c, "activities"@, o.activities@, "title"@);
            json::a_set_field_reads_back(c, "activities"@, o.activities@, "updated_at"@);
            json::a_set_field_reads_back(c, "activities"@, o.activities@, "messages"@);
            lemma_shown_tail(d, active_ids, branch_nodes, "title"@);
            lemma_shown_tail(d, active_ids, branch_nodes, "updated_at"@);
            lemma_shown_tail(d, active_ids, branch_nodes, "messages"@);
            lemma_shown_tail(d, active_ids, branch_nodes, "activities"@);
        },
        _ => {
            let d = json::set_in(fields, "messages"@, messages);
            json::a_set_field_reads_back(fields, "messages"@, messages, "title"@);
            lemma_shown_tail(d, active_ids, branch_nodes, "title"@);
            lemma_shown_tail(d, active_ids, branch_nodes, "messages"@);
        },
    }
}

proof fn lemma_shown_tail(
    told: payload::Fields,
    active_ids: JsonView,
    branch_nodes: JsonView,
    name: Seq<char>,
)
    requires
        name.len() != 18,
        name.len() != 12,
    ensures
        ({
            let e = json::set_in(told, "active_message_ids"@, active_ids);
            let r = JsonView::Object(json::set_in(e, "branch_nodes"@, branch_nodes));
            &&& r.field("branch_nodes"@) == Some(branch_nodes)
            &&& r.field("active_message_ids"@) == Some(active_ids)
            &&& r.field(name) == JsonView::Object(told).field(name)
        }),
{
    reveal_strlit("active_message_ids");
    reveal_strlit("branch_nodes");
    assert("active_message_ids"@.len() == 18);
    assert("branch_nodes"@.len() == 12);
    let e = json::set_in(told, "active_message_ids"@, active_ids);
    json::a_set_field_reads_back(told, "active_message_ids"@, active_ids, name);
    json::a_set_field_reads_back(e, "branch_nodes"@, branch_nodes, name);
    json::a_set_field_reads_back(e, "branch_nodes"@, branch_nodes, "active_message_ids"@);
}

/// The project that an open session is shown with.
pub fn live_root(scope: SessionScope, project_root: String) -> (r: Option<String>)
    ensures
        r == (match scope {
            SessionScope::Project => Some(project_root),
            SessionScope::NoProject => None,
        }),
{
    match scope {
        SessionScope::Project => Some(project_root),
        SessionScope::NoProject => None,
    }
}

// ---------------------------------------------------------------------------
// Following sessions

/// Whether a session is sent whole to somebody who begins to follow: the selected one, and each of
/// which a turn is under way.
pub open spec fn is_sent_whole(
    selected: Option<u128>,
    id: u128,
    lifecycle: ConversationLifecycle,
) -> bool {
    selected == Some(id) || is_under_way(lifecycle)
}

/// Those of the first `n` sessions that are sent whole.
pub open spec fn sent_whole(
    selected: Option<u128>,
    sessions: Seq<(u128, ConversationLifecycle)>,
    n: nat,
) -> Seq<u128>
    decreases n,
{
    if n == 0 {
        Seq::empty()
    } else {
        let (id, lifecycle) = sessions[n - 1];
        let before = sent_whole(selected, sessions, (n - 1) as nat);
        if is_sent_whole(selected, id, lifecycle) {
            before.push(id)
        } else {
            before
        }
    }
}

/// The sessions that are sent whole to somebody who begins to follow.
pub fn synced_sessions(
    selected: Option<u128>,
    sessions: &Vec<(u128, ConversationLifecycle)>,
) -> (r: Vec<u128>)
    ensures
        r@ == sent_whole(selected, sessions@, sessions@.len()),
{
    let mut r: Vec<u128> = Vec::new();
    let mut i: usize = 0;
    while i < sessions.len()
        invariant
            i <= sessions@.len(),
            r@ == sent_whole(selected, sessions@, i as nat),
        decreases sessions@.len() - i,
    {
        let (id, lifecycle) = sessions[i];
        let is_selected = match selected {
            Some(s) => s == id,
            None => false,
        };
        if is_selected || under_way(lifecycle) {
            r.push(id);
        }
        i += 1;
    }
    r
}

/// What happens to a session.
#[derive(Clone, Copy, Debug, PartialEq, Eq, Structural)]
pub enum LiveEvent {
    /// Its turn tells something.
    Agent,
    /// A turn begins or ends.
    Lifecycle,
    /// It is opened.
    Installed,
    /// It is saved.
    Snapshot,
    /// Its terminals begin or end.
    Terminals,
    /// It is closed.
    Removed,
}

/// How far somebody follows.
#[derive(Clone, Copy, Debug, PartialEq, Eq, Structural)]
pub enum Following {
    /// The first message is sent.
    Beginning,
    /// Nothing is left to send.
    Waiting,
    /// A message is sent.
    Sending,
    /// The list is sent, and the session after it.
    SendingList,
    /// It is over.
    Over,
}

/// What comes up while somebody follows.
#[derive(Clone, Copy, Debug, PartialEq, Eq, Structural)]
pub enum FollowEvent {
    /// Something happens to a session.
    Happened(LiveEvent),
    /// More happened than was kept.
    Lagged,
    /// Nobody follows any more, or nothing will happen any more.
    Closed,
    /// The message was sent.
    Sent,
    /// The message could not be sent.
    Unsent,
    /// There is no such message: the sessions cannot be listed, or the session is not open.
    Missing,
}

/// What has to be done for somebody to follow.
#[derive(Clone, Copy, Debug, PartialEq, Eq, Structural)]
pub enum FollowAction {
    /// Send the list and the sessions that are sent whole.
    SendAll,
    /// Send the list.
    SendList,
    /// Send the session to which something happens.
    SendSession,
    /// Send what happens.
    SendEvent,
    /// Wait for what happens.
    Wait,
    /// Stop.
    Stop,
}

/// How following goes on.
pub open spec fn follows(at: Following, event: FollowEvent) -> (Following, FollowAction) {
    match (at, event) {
        (Following::Over, _)
        | (_, FollowEvent::Unsent)
        | (_, FollowEvent::Closed)
        | (Following::Beginning, FollowEvent::Missing) => (Following::Over, FollowAction::Stop),
        (Following::Waiting, FollowEvent::Lagged) => (Following::Sending, FollowAction::SendAll),
        (Following::Waiting, FollowEvent::Happened(e)) => match e {
            LiveEvent::Agent => (Following::Sending, FollowAction::SendEvent),
            LiveEvent::Lifecycle => (Following::Sending, FollowAction::SendSession),
            LiveEvent::Installed | LiveEvent::Snapshot | LiveEvent::Terminals => (
                Following::SendingList,
                FollowAction::SendList,
            ),
            LiveEvent::Removed => (Following::Sending, FollowAction::SendList),
        },
        (Following::SendingList, FollowEvent::Sent) => (
            Following::Sending,
            FollowAction::SendSession,
        ),
        (Following::Beginning, FollowEvent::Sent)
        | (Following::Sending, FollowEvent::Sent)
        | (Following::Sending, FollowEvent::Missing)
        | (Following::SendingList, FollowEvent::Missing) => (
            Following::Waiting,
            FollowAction::Wait,
        ),
        _ => (at, FollowAction::Wait),
    }
}

/// How following begins: everything is sent once.
pub fn begin_following() -> (r: (Following, FollowAction))
    ensures
        r == (Following::Beginning, FollowAction::SendAll),
{
    (Following::Beginning, FollowAction::SendAll)
}

/// How following goes on.
pub fn follow(at: Following, event: FollowEvent) -> (r: (Following, FollowAction))
    ensures
        r == follows(at, event),
{
    match (at, event) {
        (Following::Over, _)
        | (_, FollowEvent::Unsent)
        | (_, FollowEvent::Closed)
        | (Following::Beginning, FollowEvent::Missing) => (Following::Over, FollowAction::Stop),
        (Following::Waiting, FollowEvent::Lagged) => (Following::Sending, FollowAction::SendAll),
        (Following::Waiting, FollowEvent::Happened(e)) => match e {
            LiveEvent::Agent => (Following::Sending, FollowAction::SendEvent),
            LiveEvent::Lifecycle => (Following::Sending, FollowAction::SendSession),
            LiveEvent::Installed | LiveEvent::Snapshot | LiveEvent::Terminals => (
                Following::SendingList,
                FollowAction::SendList,
            ),
            LiveEvent::Removed => (Following::Sending, FollowAction::SendList),
        },
        (Following::SendingList, FollowEvent::Sent) => (
            Following::Sending,
            FollowAction::SendSession,
        ),
        (Following::Beginning, FollowEvent::Sent)
        | (Following::Sending, FollowEvent::Sent)
        | (Following::Sending, FollowEvent::Missing)
        | (Following::SendingList, FollowEvent::Missing) => (
            Following::Waiting,
            FollowAction::Wait,
        ),
        _ => (at, FollowAction::Wait),
    }
}

/// Whoever follows is told of everything that happens while nothing is left to send, and of
/// everything anew where something was lost; it ends only when nobody follows any more, nothing can be
/// sent, or there was nothing to begin with.
pub proof fn followers_miss_nothing(at: Following, event: FollowEvent)
    ensures
        event is Happened && at == Following::Waiting ==> follows(at, event).1
            != FollowAction::Wait && follows(at, event).1 != FollowAction::Stop,
        event == FollowEvent::Lagged && at == Following::Waiting ==> follows(at, event).1
            == FollowAction::SendAll,
        follows(at, event).1 == FollowAction::Stop ==> at == Following::Over || event
            == FollowEvent::Unsent || event == FollowEvent::Closed || (at == Following::Beginning
            && event == FollowEvent::Missing),
        follows(at, event).1 == FollowAction::Stop <==> follows(at, event).0 == Following::Over,
{
}

// ---------------------------------------------------------------------------
// Laws
proof fn lemma_running_count(terminals: Seq<TerminalRecord>, t: TerminalRecord, n: nat)
    requires
        n <= terminals.len(),
    ensures
        running_count(terminals.push(t), n) == running_count(terminals, n),
    decreases n,
{
    if n > 0 {
        lemma_running_count(terminals, t, (n - 1) as nat);
    }
}

/// A terminal counts exactly where it runs.
pub proof fn terminals_that_run_count(terminals: Seq<TerminalRecord>, t: TerminalRecord)
    ensures
        running_count(Seq::empty(), 0) == 0,
        running_count(terminals.push(t), terminals.len() + 1) == running_count(
            terminals,
            terminals.len(),
        ) + (if t.state == TerminalProcessState::Running {
            1int
        } else {
            0int
        }),
{
    lemma_running_count(terminals, t, terminals.len());
}

/// An open session stands where the saved one of its id stood, or else last; the others stay as they
/// are and where they are.
pub proof fn an_open_session_takes_its_place(
    sessions: Seq<SessionSummary>,
    s: SessionSummary,
    i: int,
)
    requires
        hierarchy::distinct_ids(sessions),
        0 <= i < sessions.len(),
    ensures
        ({
            let now = with_session(sessions, s);
            let known = exists|k: int| 0 <= k < sessions.len() && (#[trigger] sessions[k]).id == s.id;
            &&& known ==> now.len() == sessions.len()
            &&& !known ==> now.len() == sessions.len() + 1 && now.last() == s
            &&& now[i] == (if sessions[i].id == s.id {
                s
            } else {
                sessions[i]
            })
        }),
{
    lemma_session_at(sessions, s.id, 0);
    let at = session_at(sessions, s.id, 0);
    if exists|k: int| 0 <= k < sessions.len() && (#[trigger] sessions[k]).id == s.id {
        let k = choose|k: int| 0 <= k < sessions.len() && (#[trigger] sessions[k]).id == s.id;
        lemma_first_session(sessions, s.id, 0, k);
    }
    if sessions[i].id == s.id {
        lemma_first_session(sessions, s.id, 0, i);
        if at < i {
            assert(sessions[at].id != sessions[i].id);
        }
    }
}

proof fn lemma_first_session(sessions: Seq<SessionSummary>, id: u128, from: int, k: int)
    requires
        0 <= from <= k < sessions.len(),
        sessions[k].id == id,
    ensures
        session_at(sessions, id, from) <= k,
    decreases k - from,
{
    if sessions[from].id != id {
        lemma_first_session(sessions, id, from + 1, k);
    }
}

proof fn lemma_first_live(
    projects: Seq<ListedView>,
    live: Seq<LiveSession>,
    one: LiveSession,
    n: nat,
)
    requires
        n <= live.len(),
    ensures
        with_all_live(projects, live.push(one), n) == with_all_live(projects, live, n),
    decreases n,
{
    if n > 0 {
        lemma_first_live(projects, live, one, (n - 1) as nat);
    }
}

/// Open sessions are put into the lists one after the other.
pub proof fn open_sessions_are_put_in_a_row(
    projects: Seq<ListedView>,
    live: Seq<LiveSession>,
    one: LiveSession,
)
    ensures
        with_all_live(projects, Seq::empty(), 0) == projects,
        with_all_live(projects, live.push(one), live.len() + 1) == with_live(
            with_all_live(projects, live, live.len()),
            one,
        ),
{
    lemma_first_live(projects, live, one, live.len());
}

/// An open session is listed with its project; one without a project among those of none, and where
/// its project has no list yet, in a new one behind the others.
pub proof fn an_open_session_is_listed_with_its_project(
    projects: Seq<ListedView>,
    live: LiveSession,
)
    ensures
        live.scope == SessionScope::Project ==> live.root() == Some(live.project_root@),
        live.scope == SessionScope::NoProject ==> live.root() is None,
        (forall|i: int| 0 <= i < projects.len() ==> (#[trigger] projects[i]).root != live.root())
            ==> with_live(projects, live).len() == projects.len() + 1 && with_live(
            projects,
            live,
        ).last() == (ListedView { root: live.root(), sessions: seq![live.summary] }),
        forall|i: int|
            0 <= i < projects.len() && (#[trigger] projects[i]).root == live.root() ==> with_live(
                projects,
                live,
            ).len() == projects.len(),
        forall|i: int|
            0 <= i < projects.len() ==> (#[trigger] with_live(projects, live)[i]).root
                == projects[i].root,
{
    lemma_project_at(projects, live.root(), 0);
    let at = project_at(projects, live.root(), 0);
    assert forall|i: int|
        0 <= i < projects.len() && (#[trigger] projects[i]).root == live.root() implies with_live(
        projects,
        live,
    ).len() == projects.len() by {
        lemma_first_project(projects, live.root(), 0, i);
    }
}

proof fn lemma_first_project(projects: Seq<ListedView>, root: Option<Seq<char>>, from: int, k: int)
    requires
        0 <= from <= k < projects.len(),
        projects[k].root == root,
    ensures
        project_at(projects, root, from) <= k,
    decreases k - from,
{
    if projects[from].root != root {
        lemma_first_project(projects, root, from + 1, k);
    }
}

/// The lists stay the lists of their projects, each with all of its sessions.
pub proof fn lists_stay_with_their_projects(projects: Seq<ListedView>, i: int)
    requires
        0 <= i < projects.len(),
    ensures
        arranged_lists(projects).len() == projects.len(),
        arranged_lists(projects)[i].root == projects[i].root,
        arranged_lists(projects)[i].sessions.len() == projects[i].sessions.len(),
{
    hierarchy::arranging_lists_every_session_once(projects[i].sessions);
}

/// A turn is under way unless the conversation is idle.
pub proof fn only_idle_conversations_rest(lifecycle: ConversationLifecycle)
    ensures
        is_under_way(lifecycle) <==> lifecycle != ConversationLifecycle::Idle,
{
}

proof fn lemma_sent_whole(
    selected: Option<u128>,
    sessions: Seq<(u128, ConversationLifecycle)>,
    one: (u128, ConversationLifecycle),
    n: nat,
)
    requires
        n <= sessions.len(),
    ensures
        sent_whole(selected, sessions.push(one), n) == sent_whole(selected, sessions, n),
    decreases n,
{
    if n > 0 {
        lemma_sent_whole(selected, sessions, one, (n - 1) as nat);
    }
}

/// A session is sent whole, behind those before it, exactly where it is selected or not idle.
pub proof fn selected_and_busy_sessions_are_sent_whole(
    selected: Option<u128>,
    sessions: Seq<(u128, ConversationLifecycle)>,
    id: u128,
    lifecycle: ConversationLifecycle,
)
    ensures
        sent_whole(selected, Seq::empty(), 0).len() == 0,
        sent_whole(selected, sessions.push((id, lifecycle)), sessions.len() + 1) == sent_whole(
            selected,
            sessions,
            sessions.len(),
        ) + (if selected == Some(id) || lifecycle != ConversationLifecycle::Idle {
            seq![id]
        } else {
            Seq::<u128>::empty()
        }),
{
    lemma_sent_whole(selected, sessions, (id, lifecycle), sessions.len());
}

/// Whoever waits is sent what a turn tells, the session whose turn begins or ends, and the list where
/// that changes, followed by the session unless it is gone.
pub proof fn followers_are_sent_what_happens(e: LiveEvent)
    ensures
        ({
            let (at, action) = follows(Following::Waiting, FollowEvent::Happened(e));
            let (later, then_action) = follows(at, FollowEvent::Sent);
            &&& action == FollowAction::SendEvent <==> e == LiveEvent::Agent
            &&& action == FollowAction::SendSession <==> e == LiveEvent::Lifecycle
            &&& action == FollowAction::SendList <==> e != LiveEvent::Agent && e
                != LiveEvent::Lifecycle
            &&& then_action == FollowAction::SendSession <==> e == LiveEvent::Installed || e
                == LiveEvent::Snapshot || e == LiveEvent::Terminals
            &&& then_action != FollowAction::SendSession ==> later == Following::Waiting
            &&& then_action == FollowAction::SendSession ==> follows(later, FollowEvent::Sent).0
                == Following::Waiting
        }),
        follows(Following::Beginning, FollowEvent::Sent).0 == Following::Waiting,
        forall|at: Following| #[trigger]
            follows(at, FollowEvent::Closed) == (Following::Over, FollowAction::Stop),
        forall|at: Following| #[trigger]
            follows(at, FollowEvent::Unsent) == (Following::Over, FollowAction::Stop),
{
}

} // verus!
