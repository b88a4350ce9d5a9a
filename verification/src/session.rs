//! A session: its conversation, turns and goals.
use crate::conversation;
use crate::conversation::{BranchError, ConversationTree, TreeView};
use crate::events::AgentActivity;
use crate::hierarchy::{ScheduledRun, SessionSummary};
use crate::ids;
use crate::message;
use crate::message::{Message, MessageView, Role};
use crate::screen::TerminalRecord;
use crate::text;
use vstd::prelude::*;
use vstd::string::*;

verus! {

/// How far a goal is.
#[derive(Clone, Copy, Debug, PartialEq, Eq, Structural)]
pub enum GoalStatus {
    Active,
    Paused,
    Completed,
    Blocked,
}

/// Something the agent is to reach.
#[derive(Debug)]
pub struct Goal {
    pub id: u128,
    pub objective: String,
    pub status: GoalStatus,
    pub created_at: i128,
    pub updated_at: i128,
    pub status_detail: Option<String>,
}

/// How a turn ended.
#[derive(Clone, Copy, Debug, PartialEq, Eq, Structural)]
pub enum TurnOutcome {
    Completed,
    Cancelled,
    Failed,
}

/// One turn of the agent.
#[derive(Clone, Copy, Debug, PartialEq, Eq, Structural)]
pub struct AgentTurn {
    pub message_id: u128,
    pub message_index: usize,
    pub started_at: i128,
    pub completed_at: Option<i128>,
    pub outcome: Option<TurnOutcome>,
    pub change_id: Option<u128>,
}

/// What a set of file changes belongs to.
#[derive(Clone, Copy, Debug, PartialEq, Eq, Structural)]
pub enum FileChangeKind {
    Operation,
    Turn,
}

/// A change kept in a Git repository.
#[derive(Clone, Debug)]
pub struct GitFileChange {
    pub path: String,
    pub commit: String,
    pub relative_path: String,
    pub before_patch: String,
    pub after_patch: String,
    pub before_sha256: String,
    pub after_sha256: String,
}

/// A change kept in temporary files.
#[derive(Clone, Debug)]
pub struct TemporaryFileChange {
    pub path: String,
    pub before: String,
    pub after: String,
}

/// A change of one file.
#[derive(Clone, Debug)]
pub enum FileChange {
    Git(GitFileChange),
    Temporary(TemporaryFileChange),
}

impl FileChange {
    /// The changed file.
    pub open spec fn path_view(self) -> Seq<char> {
        match self {
            FileChange::Git(change) => change.path@,
            FileChange::Temporary(change) => change.path@,
        }
    }

    /// The changed file.
    pub fn path(&self) -> (r: &str)
        ensures
            r@ == self.path_view(),
    {
        match self {
            FileChange::Git(change) => change.path.as_str(),
            FileChange::Temporary(change) => change.path.as_str(),
        }
    }
}

/// The file changes of an operation or a turn.
#[derive(Clone, Debug)]
pub struct FileChangeSet {
    pub id: u128,
    pub turn_message_id: u128,
    pub activity_id: Option<String>,
    pub kind: FileChangeKind,
    pub outcome: Option<TurnOutcome>,
    pub unavailable_reason: Option<String>,
    pub files: Vec<FileChange>,
}

/// What made a compaction necessary.
#[derive(Clone, Copy, Debug, PartialEq, Eq, Structural)]
pub enum CompactionTrigger {
    BeforeTurn,
    BetweenModelRequests,
    SmallerModel,
    ContextLengthExceeded,
}

/// Tokens that a request took.
#[derive(Clone, Copy, Debug, PartialEq, Eq, Structural)]
pub struct TokenUsage {
    pub input_tokens: Option<u64>,
    pub output_tokens: Option<u64>,
    pub total_tokens: Option<u64>,
}

/// A summary that stands for the older messages of a branch.
#[derive(Clone, Debug)]
pub struct CompactionCheckpoint {
    pub id: u128,
    pub branch_leaf_id: Option<u128>,
    pub created_at: i128,
    pub trigger: CompactionTrigger,
    pub covered_from_message_index: usize,
    pub covered_through_message_index: usize,
    pub recent_tail_starts_at_message_index: usize,
    pub summary: String,
    pub provider: String,
    pub model: String,
    pub reasoning_effort: Option<String>,
    pub service_tier: Option<String>,
    pub usage: TokenUsage,
    pub previous_checkpoint_id: Option<u128>,
}

/// What the last request of a branch took.
#[derive(Clone, Debug)]
pub struct RequestUsage {
    pub recorded_at: i128,
    pub branch_leaf_id: Option<u128>,
    pub provider: String,
    pub model: String,
    pub reasoning_effort: Option<String>,
    pub service_tier: Option<String>,
    pub canonical_message_count: usize,
    pub checkpoint_id: Option<u128>,
    pub usage: TokenUsage,
}

/// A file attached to a conversation.
#[derive(Clone, Debug)]
pub struct Attachment {
    pub sha256: String,
    pub name: String,
    pub mime_type: Option<String>,
    pub size: u64,
}

/// A session.
#[derive(Debug)]
pub struct Session {
    pub id: u128,
    pub parent_session_id: Option<u128>,
    pub scheduled_run: Option<ScheduledRun>,
    pub created_at: i128,
    pub updated_at: i128,
    pub provider: String,
    pub model: String,
    pub reasoning_effort: Option<String>,
    pub service_tier: Option<String>,
    pub title: String,
    pub messages: ConversationTree,
    pub activities: Vec<AgentActivity>,
    pub next_event_sequence: u64,
    pub turns: Vec<AgentTurn>,
    pub goals: Vec<Goal>,
    pub visible_goal_id: Option<u128>,
    pub compaction_checkpoints: Vec<CompactionCheckpoint>,
    pub latest_request_usage: Option<RequestUsage>,
    pub next_terminal_id: u64,
    pub terminals: Vec<TerminalRecord>,
    pub attachments: Vec<Attachment>,
    pub file_changes: Vec<FileChangeSet>,
}

/// The provider of sessions stored without one.
pub fn default_provider() -> (s: String)
    ensures
        s@ == "default"@,
{
    "default".to_owned()
}

/// The number of the first terminal.
pub fn default_next_terminal_id() -> (n: u64)
    ensures
        n == 1,
{
    1
}

// ---------------------------------------------------------------------------
// The model of goals

/// The position of the first goal called `id` at or after `from`; the number of goals where there
/// is none.
pub open spec fn goal_position(goals: Seq<Goal>, id: u128, from: int) -> int
    decreases goals.len() - from,
{
    if from >= goals.len() {
        goals.len() as int
    } else if goals[from].id == id {
        from
    } else {
        goal_position(goals, id, from + 1)
    }
}

/// The position of the first active goal at or after `from`; the number of goals where there is
/// none.
pub open spec fn active_position(goals: Seq<Goal>, from: int) -> int
    decreases goals.len() - from,
{
    if from >= goals.len() {
        goals.len() as int
    } else if goals[from].status == GoalStatus::Active {
        from
    } else {
        active_position(goals, from + 1)
    }
}

/// Whether at most one goal is active.
pub open spec fn one_active(goals: Seq<Goal>) -> bool {
    forall|i: int, j: int|
        0 <= i < j < goals.len() ==> !((#[trigger] goals[i]).status == GoalStatus::Active && (
        #[trigger] goals[j]).status == GoalStatus::Active)
}

/// `goals` with the first active one paused at `now`.
pub open spec fn paused(goals: Seq<Goal>, now: i128) -> Seq<Goal> {
    let i = active_position(goals, 0);
    if i < goals.len() {
        goals.update(i, Goal { status: GoalStatus::Paused, updated_at: now, ..goals[i] })
    } else {
        goals
    }
}

/// The id of the goal below `n` that was updated last; of two updated at once, the later one.
pub open spec fn latest_goal(goals: Seq<Goal>, n: nat) -> Option<int>
    decreases n,
{
    if n == 0 {
        None
    } else {
        match latest_goal(goals, (n - 1) as nat) {
            Some(best) => if goals[n - 1].updated_at >= goals[best].updated_at {
                Some(n - 1)
            } else {
                Some(best)
            },
            None => Some(n - 1),
        }
    }
}

/// `goals` with the objective of goal `i` changed at `now`: a goal that was over is paused.
pub open spec fn edited(goals: Seq<Goal>, i: int, objective: String, now: i128) -> Seq<Goal> {
    goals.update(
        i,
        Goal {
            objective,
            status: if goals[i].status == GoalStatus::Completed || goals[i].status
                == GoalStatus::Blocked {
                GoalStatus::Paused
            } else {
                goals[i].status
            },
            updated_at: now,
            status_detail: None,
            ..goals[i]
        },
    )
}

/// `goals` with goal `i` in `status` at `now`.
pub open spec fn moved(
    goals: Seq<Goal>,
    i: int,
    status: GoalStatus,
    detail: Option<String>,
    now: i128,
) -> Seq<Goal> {
    goals.update(i, Goal { status, updated_at: now, status_detail: detail, ..goals[i] })
}

/// The id of the visible goal once the goal called `id` is gone and `rest` is left.
pub open spec fn visible_after_removal(visible: Option<u128>, id: u128, rest: Seq<Goal>) -> Option<
    u128,
> {
    if visible == Some(id) {
        match latest_goal(rest, rest.len()) {
            Some(i) => Some(rest[i].id),
            None => None,
        }
    } else {
        visible
    }
}

impl Session {
    /// Whether `self` is `before` with other goals, another visible goal and another time of the
    /// last change.
    pub open spec fn only_goals_changed(self, before: Session) -> bool {
        self == (Session {
            goals: self.goals,
            visible_goal_id: self.visible_goal_id,
            updated_at: self.updated_at,
            ..before
        })
    }
}

proof fn lemma_goal_position(goals: Seq<Goal>, id: u128, from: int)
    requires
        0 <= from <= goals.len(),
    ensures
        from <= goal_position(goals, id, from) <= goals.len(),
        goal_position(goals, id, from) < goals.len() ==> goals[goal_position(goals, id, from)].id
            == id,
    decreases goals.len() - from,
{
    if from < goals.len() && goals[from].id != id {
        lemma_goal_position(goals, id, from + 1);
    }
}

proof fn lemma_active_position(goals: Seq<Goal>, from: int)
    requires
        0 <= from <= goals.len(),
    ensures
        from <= active_position(goals, from) <= goals.len(),
        active_position(goals, from) < goals.len() ==> goals[active_position(goals, from)].status
            == GoalStatus::Active,
        forall|j: int|
            from <= j < active_position(goals, from) ==> (#[trigger] goals[j]).status
                != GoalStatus::Active,
    decreases goals.len() - from,
{
    if from < goals.len() && goals[from].status != GoalStatus::Active {
        lemma_active_position(goals, from + 1);
    }
}

/// Pausing the active goal leaves none active.
proof fn lemma_paused(goals: Seq<Goal>, now: i128)
    requires
        one_active(goals),
    ensures
        paused(goals, now).len() == goals.len(),
        forall|j: int|
            0 <= j < goals.len() ==> (#[trigger] paused(goals, now)[j]).status != GoalStatus::Active
                && paused(goals, now)[j].id == goals[j].id,
{
    lemma_active_position(goals, 0);
    let i = active_position(goals, 0);
    assert forall|j: int| 0 <= j < goals.len() implies (#[trigger] paused(goals, now)[j]).status
        != GoalStatus::Active && paused(goals, now)[j].id == goals[j].id by {
        if i < goals.len() && j != i {
            if j < i {
                assert(goals[j].status != GoalStatus::Active);
            } else {
                assert(!(goals[i].status == GoalStatus::Active && goals[j].status
                    == GoalStatus::Active));
            }
        }
        if i == goals.len() {
            assert(goals[j].status != GoalStatus::Active);
        }
    }
}

proof fn lemma_paused_ids(goals: Seq<Goal>, now: i128, id: u128, from: int)
    requires
        0 <= from <= goals.len(),
    ensures
        goal_position(paused(goals, now), id, from) == goal_position(goals, id, from),
    decreases goals.len() - from,
{
    lemma_active_position(goals, 0);
    if from < goals.len() {
        lemma_paused_ids(goals, now, id, from + 1);
    }
}

// ---------------------------------------------------------------------------
// The model of turns

/// The last position below `n` of a turn of the message called `id`.
pub open spec fn last_turn(turns: Seq<AgentTurn>, id: u128, n: nat) -> Option<int>
    decreases n,
{
    if n == 0 {
        None
    } else if turns[n - 1].message_id == id {
        Some(n - 1)
    } else {
        last_turn(turns, id, (n - 1) as nat)
    }
}

/// The last position below `n` of `id` among `ids`; the largest index where there is none.
pub open spec fn active_index(ids: Seq<u128>, id: u128, n: nat) -> usize
    decreases n,
{
    if n == 0 {
        usize::MAX
    } else if ids[n - 1] == id {
        (n - 1) as usize
    } else {
        active_index(ids, id, (n - 1) as nat)
    }
}

/// Turns with their message indexes on the active path.
pub open spec fn refreshed_turns(turns: Seq<AgentTurn>, ids: Seq<u128>) -> Seq<AgentTurn> {
    Seq::new(
        turns.len(),
        |i: int|
            AgentTurn {
                message_index: active_index(ids, turns[i].message_id, ids.len()),
                ..turns[i]
            },
    )
}

/// Activities with their message indexes on the active path.
pub open spec fn refreshed_activities(activities: Seq<AgentActivity>, ids: Seq<u128>) -> Seq<
    AgentActivity,
> {
    Seq::new(
        activities.len(),
        |i: int|
            AgentActivity {
                turn_message_index: active_index(ids, activities[i].turn_message_id, ids.len()),
                ..activities[i]
            },
    )
}

/// The last position below `n` of a checkpoint that belongs to the active path.
pub open spec fn last_checkpoint(
    checkpoints: Seq<CompactionCheckpoint>,
    tree: TreeView,
    n: nat,
) -> Option<int>
    decreases n,
{
    if n == 0 {
        None
    } else if on_active_path(tree, checkpoints[n - 1].branch_leaf_id) {
        Some(n - 1)
    } else {
        last_checkpoint(checkpoints, tree, (n - 1) as nat)
    }
}

/// Whether what belongs to the branch of `leaf` belongs to the active path: `leaf` is the active
/// leaf or stands above it, or nothing says which branch is meant.
pub open spec fn on_active_path(tree: TreeView, leaf: Option<u128>) -> bool {
    match leaf {
        None => true,
        Some(l) => tree.leaf is Some && exists|k: nat|
            #[trigger] conversation::up(tree.nodes, tree.leaf->0, k) == Some(l),
    }
}

fn index_on_path(ids: &Vec<u128>, id: u128) -> (r: usize)
    ensures
        r == active_index(ids@, id, ids@.len()),
{
    let mut n: usize = ids.len();
    while n > 0
        invariant
            n <= ids@.len(),
            active_index(ids@, id, ids@.len()) == active_index(ids@, id, n as nat),
        decreases n,
    {
        if ids[n - 1] == id {
            return n - 1;
        }
        n -= 1;
    }
    usize::MAX
}

/// Why a message was not edited.
#[derive(Debug)]
pub enum EditError {
    Empty,
    Branch(BranchError),
}

impl EditError {
    /// What a person is told.
    pub open spec fn text(self) -> Seq<char> {
        match self {
            EditError::Empty => "edited message is empty"@,
            EditError::Branch(e) => e.text(),
        }
    }

    /// What a person is told.
    pub fn message(&self) -> (s: String)
        ensures
            s@ == self.text(),
    {
        match self {
            EditError::Empty => "edited message is empty".to_owned(),
            EditError::Branch(e) => e.message(),
        }
    }
}

/// The text of a message, or none.
pub open spec fn content_of(m: MessageView) -> Seq<char> {
    match m.content {
        Some(s) => s,
        None => Seq::empty(),
    }
}

/// What editing the message called `node_id` of the session `before` comes to: an edited `message`
/// called `new_id` hangs beside it in the session `after`, or nothing but an error comes of it.
pub open spec fn message_edited(
    before: Session,
    after: Session,
    node_id: u128,
    message: MessageView,
    new_id: u128,
    now: i128,
    r: Result<u128, EditError>,
) -> bool {
    let nodes = before.messages@.nodes;
    let parent = conversation::parent_of(nodes, node_id);
    if text::trimmed(content_of(message)).len() == 0 {
        r == Err::<u128, EditError>(EditError::Empty) && after == before
    } else if !conversation::visible_at(nodes, node_id) {
        &&& r == Err::<u128, EditError>(
            EditError::Branch(
                if conversation::holds(nodes, node_id) {
                    BranchError::NotEditable
                } else {
                    BranchError::MissingNode(node_id)
                },
            ),
        )
        &&& after.messages@ == before.messages@
        &&& after == (Session { messages: after.messages, ..before })
    } else {
        &&& after.messages@ == conversation::branched(before.messages@, parent, message, new_id)
        &&& !conversation::holds(nodes, new_id) ==> r is Ok && after.messages.wf()
        &&& match conversation::branch_error(before.messages@, parent, message, new_id) {
            Some(e) => {
                &&& r == Err::<u128, EditError>(EditError::Branch(e))
                &&& after == (Session { messages: after.messages, ..before })
            },
            None => {
                &&& r == Ok::<u128, EditError>(new_id)
                &&& after.title@ == (if parent is None {
                    text::first_chars(content_of(message), 72)
                } else {
                    before.title@
                })
                &&& after.turns@ == refreshed_turns(before.turns@, after.messages@.ids)
                &&& after.activities@ == refreshed_activities(
                    before.activities@,
                    after.messages@.ids,
                )
                &&& after == (Session {
                    messages: after.messages,
                    turns: after.turns,
                    activities: after.activities,
                    title: after.title,
                    updated_at: now,
                    ..before
                })
            },
        }
    }
}

impl Session {
    /// Whether the session is sound: its conversation is a tree and at most one goal is active.
    pub open spec fn wf(&self) -> bool {
        self.messages.wf() && one_active(self.goals@)
    }

    /// A new session, made at `now` under the given id.
    pub fn create_with(provider: String, model: String, id: u128, now: i128) -> (s: Session)
        ensures
            s.wf(),
            s.id == id,
            s.created_at == now,
            s.updated_at == now,
            s.provider == provider,
            s.model == model,
            s.title@ == "New session"@,
            s.messages@ == TreeView::of(Seq::empty(), None),
            s.parent_session_id is None,
            s.scheduled_run is None,
            s.reasoning_effort is None,
            s.service_tier is None,
            s.activities@.len() == 0,
            s.next_event_sequence == 0,
            s.turns@.len() == 0,
            s.goals@.len() == 0,
            s.visible_goal_id is None,
            s.compaction_checkpoints@.len() == 0,
            s.latest_request_usage is None,
            s.next_terminal_id == 1,
            s.terminals@.len() == 0,
            s.attachments@.len() == 0,
            s.file_changes@.len() == 0,
    {
        Session {
            id,
            parent_session_id: None,
            scheduled_run: None,
            created_at: now,
            updated_at: now,
            provider,
            model,
            reasoning_effort: None,
            service_tier: None,
            title: "New session".to_owned(),
            messages: ConversationTree::new(),
            activities: Vec::new(),
            next_event_sequence: 0,
            turns: Vec::new(),
            goals: Vec::new(),
            visible_goal_id: None,
            compaction_checkpoints: Vec::new(),
            latest_request_usage: None,
            next_terminal_id: default_next_terminal_id(),
            terminals: Vec::new(),
            attachments: Vec::new(),
            file_changes: Vec::new(),
        }
    }

    /// A new session, made now under a new id.
    pub fn create_for_provider(provider: String, model: String) -> (s: Session)
        ensures
            s.wf(),
            s.created_at == s.updated_at,
            0 <= s.created_at < crate::clock::CALENDAR_END * 1_000_000_000,
            s.provider == provider,
            s.model == model,
            s.title@ == "New session"@,
            s.messages@ == TreeView::of(Seq::empty(), None),
            s.parent_session_id is None,
            s.scheduled_run is None,
            s.reasoning_effort is None,
            s.service_tier is None,
            s.activities@.len() == 0,
            s.next_event_sequence == 0,
            s.turns@.len() == 0,
            s.goals@.len() == 0,
            s.visible_goal_id is None,
            s.compaction_checkpoints@.len() == 0,
            s.latest_request_usage is None,
            s.next_terminal_id == 1,
            s.terminals@.len() == 0,
            s.attachments@.len() == 0,
            s.file_changes@.len() == 0,
    {
        Session::create_with(provider, model, ids::random_id(), crate::clock::now())
    }

    /// What is listed of the session.
    pub fn summary(&self) -> (r: SessionSummary)
        ensures
            r == (SessionSummary {
                id: self.id,
                parent_session_id: self.parent_session_id,
                scheduled_run: self.scheduled_run,
                created_at: self.created_at,
                updated_at: self.updated_at,
                title: self.title,
                model: self.model,
                depth: 0,
                descendant_count: 0,
            }),
    {
        SessionSummary {
            id: self.id,
            parent_session_id: self.parent_session_id,
            scheduled_run: crate::hierarchy::copy_run(&self.scheduled_run),
            created_at: self.created_at,
            updated_at: self.updated_at,
            title: self.title.clone(),
            model: self.model.clone(),
            depth: 0,
            descendant_count: 0,
        }
    }

    /// The number of the next event. Numbers do not repeat until they run out.
    pub fn reserve_event_sequence(&mut self) -> (n: u64)
        ensures
            n == old(self).next_event_sequence,
            *final(self) == (Session {
                next_event_sequence: final(self).next_event_sequence,
                ..*old(self)
            }),
            final(self).next_event_sequence == (if n == u64::MAX {
                u64::MAX as int
            } else {
                n + 1
            }),
    {
        let sequence: u64 = self.next_event_sequence;
        self.next_event_sequence = self.next_event_sequence.saturating_add(1);
        sequence
    }

    /// Notes a turn that begins.
    pub fn start_turn(&mut self, message_id: u128, message_index: usize, started_at: i128)
        ensures
            *final(self) == (Session { turns: final(self).turns, ..*old(self) }),
            final(self).turns@ == old(self).turns@.push(
                AgentTurn {
                    message_id,
                    message_index,
                    started_at,
                    completed_at: None,
                    outcome: None,
                    change_id: None,
                },
            ),
    {
        self.turns.push(
            AgentTurn {
                message_id,
                message_index,
                started_at,
                completed_at: None,
                outcome: None,
                change_id: None,
            },
        );
    }

    /// Notes that the last turn of a message was completed.
    pub fn complete_turn(&mut self, message_id: u128, completed_at: i128)
        ensures
            *final(self) == (Session { turns: final(self).turns, ..*old(self) }),
            match last_turn(old(self).turns@, message_id, old(self).turns@.len()) {
                Some(i) => final(self).turns@ == old(self).turns@.update(
                    i,
                    AgentTurn {
                        completed_at: Some(completed_at),
                        outcome: Some(TurnOutcome::Completed),
                        ..old(self).turns@[i]
                    },
                ),
                None => final(self).turns@ == old(self).turns@,
            },
    {
        let mut n: usize = self.turns.len();
        while n > 0
            invariant
                n <= self.turns@.len(),
                *self == *old(self),
                last_turn(self.turns@, message_id, self.turns@.len()) == last_turn(
                    self.turns@,
                    message_id,
                    n as nat,
                ),
            decreases n,
        {
            if self.turns[n - 1].message_id == message_id {
                let turn = self.turns[n - 1];
                self.turns.set(
                    n - 1,
                    AgentTurn {
                        completed_at: Some(completed_at),
                        outcome: Some(TurnOutcome::Completed),
                        ..turn
                    },
                );
                return ;
            }
            n -= 1;
        }
    }

    /// Notes how the last turn ended.
    pub fn finish_latest_turn(&mut self, outcome: TurnOutcome, completed_at: i128)
        ensures
            *final(self) == (Session {
                turns: final(self).turns,
                updated_at: completed_at,
                ..*old(self)
            }),
            old(self).turns@.len() == 0 ==> final(self).turns@ == old(self).turns@,
            old(self).turns@.len() > 0 ==> final(self).turns@ == old(self).turns@.update(
                old(self).turns@.len() - 1,
                AgentTurn {
                    completed_at: Some(completed_at),
                    outcome: Some(outcome),
                    ..old(self).turns@.last()
                },
            ),
    {
        let n: usize = self.turns.len();
        if n > 0 {
            let turn = self.turns[n - 1];
            self.turns.set(
                n - 1,
                AgentTurn { completed_at: Some(completed_at), outcome: Some(outcome), ..turn },
            );
        }
        self.updated_at = completed_at;
    }

    fn find_goal(&self, id: u128) -> (r: usize)
        ensures
            r as int == goal_position(self.goals@, id, 0),
            r <= self.goals@.len(),
            r < self.goals@.len() ==> self.goals@[r as int].id == id,
    {
        let mut i: usize = 0;
        while i < self.goals.len() && self.goals[i].id != id
            invariant
                i <= self.goals@.len(),
                goal_position(self.goals@, id, 0) == goal_position(self.goals@, id, i as int),
            decreases self.goals@.len() - i,
        {
            i += 1;
        }
        i
    }

    fn find_active(&self) -> (r: usize)
        ensures
            r as int == active_position(self.goals@, 0),
            r <= self.goals@.len(),
            r < self.goals@.len() ==> self.goals@[r as int].status == GoalStatus::Active,
    {
        let mut i: usize = 0;
        while i < self.goals.len() && self.goals[i].status != GoalStatus::Active
            invariant
                i <= self.goals@.len(),
                active_position(self.goals@, 0) == active_position(self.goals@, i as int),
            decreases self.goals@.len() - i,
        {
            i += 1;
        }
        i
    }

    /// The active goal.
    pub fn active_goal(&self) -> (r: Option<&Goal>)
        ensures
            r == (if active_position(self.goals@, 0) < self.goals@.len() {
                Some(&self.goals@[active_position(self.goals@, 0)])
            } else {
                None
            }),
    {
        let i: usize = self.find_active();
        if i < self.goals.len() {
            Some(&self.goals[i])
        } else {
            None
        }
    }

    /// Pauses the active goal at `now`.
    pub fn pause_active_goal_at(&mut self, now: i128) -> (r: Option<u128>)
        ensures
            final(self).goals@ == paused(old(self).goals@, now),
            r == (if active_position(old(self).goals@, 0) < old(self).goals@.len() {
                Some(old(self).goals@[active_position(old(self).goals@, 0)].id)
            } else {
                None
            }),
            *final(self) == (Session {
                goals: final(self).goals,
                updated_at: if r is Some {
                    now
                } else {
                    old(self).updated_at
                },
                ..*old(self)
            }),
            one_active(old(self).goals@) ==> one_active(final(self).goals@),
            r is None ==> *final(self) == *old(self),
    {
        let i: usize = self.find_active();
        proof {
            if one_active(self.goals@) {
                lemma_paused(self.goals@, now);
            }
        }
        if i < self.goals.len() {
            let id: u128 = self.goals[i].id;
            self.goals[i].status = GoalStatus::Paused;
            self.goals[i].updated_at = now;
            self.updated_at = now;
            assert(self.goals@ == paused(old(self).goals@, now));
            Some(id)
        } else {
            None
        }
    }

    /// Pauses the active goal.
    pub fn pause_active_goal(&mut self) -> (r: Option<u128>)
        ensures
            r is Some ==> final(self).goals@ == paused(old(self).goals@, final(self).updated_at)
                && final(self).only_goals_changed(*old(self)) && final(self).visible_goal_id
                == old(self).visible_goal_id,
            r == (if active_position(old(self).goals@, 0) < old(self).goals@.len() {
                Some(old(self).goals@[active_position(old(self).goals@, 0)].id)
            } else {
                None
            }),
            r is None ==> *final(self) == *old(self),
            one_active(old(self).goals@) ==> one_active(final(self).goals@),
    {
        self.pause_active_goal_at(crate::clock::now())
    }

    /// Makes a new goal called `id` the active one at `now`.
    pub fn create_goal_with(&mut self, objective: String, id: u128, now: i128)
        ensures
            final(self).goals@ == paused(old(self).goals@, now).push(
                Goal {
                    id,
                    objective,
                    status: GoalStatus::Active,
                    created_at: now,
                    updated_at: now,
                    status_detail: None,
                },
            ),
            *final(self) == (Session {
                goals: final(self).goals,
                visible_goal_id: Some(id),
                updated_at: now,
                ..*old(self)
            }),
            one_active(old(self).goals@) ==> one_active(final(self).goals@),
    {
        proof {
            if one_active(self.goals@) {
                lemma_paused(self.goals@, now);
            }
        }
        let _ = self.pause_active_goal_at(now);
        self.goals.push(
            Goal {
                id,
                objective,
                status: GoalStatus::Active,
                created_at: now,
                updated_at: now,
                status_detail: None,
            },
        );
        self.visible_goal_id = Some(id);
        self.updated_at = now;
    }

    /// Makes a new goal the active one.
    pub fn create_goal(&mut self, objective: String) -> (id: u128)
        ensures
            final(self).goals@ == paused(old(self).goals@, final(self).updated_at).push(
                Goal {
                    id,
                    objective,
                    status: GoalStatus::Active,
                    created_at: final(self).updated_at,
                    updated_at: final(self).updated_at,
                    status_detail: None,
                },
            ),
            final(self).visible_goal_id == Some(id),
            final(self).only_goals_changed(*old(self)),
            one_active(old(self).goals@) ==> one_active(final(self).goals@),
    {
        let id: u128 = ids::random_id();
        self.create_goal_with(objective, id, crate::clock::now());
        id
    }

    /// Gives a goal a new objective at `now`; one that was over is paused.
    pub fn edit_goal_at(&mut self, id: u128, objective: String, now: i128) -> (r: bool)
        ensures
            r == (goal_position(old(self).goals@, id, 0) < old(self).goals@.len()),
            !r ==> *final(self) == *old(self),
            r ==> {
                &&& final(self).goals@ == edited(
                    old(self).goals@,
                    goal_position(old(self).goals@, id, 0),
                    objective,
                    now,
                )
                &&& final(self).only_goals_changed(*old(self))
                &&& final(self).visible_goal_id == Some(id)
                &&& final(self).updated_at == now
            },
            one_active(old(self).goals@) ==> one_active(final(self).goals@),
    {
        let i: usize = self.find_goal(id);
        if i >= self.goals.len() {
            return false;
        }
        let ghost before = self.goals@;
        let status = self.goals[i].status;
        self.goals[i].objective = objective;
        if status == GoalStatus::Completed || status == GoalStatus::Blocked {
            self.goals[i].status = GoalStatus::Paused;
        }
        self.goals[i].updated_at = now;
        self.goals[i].status_detail = None;
        self.visible_goal_id = Some(id);
        self.updated_at = now;
        proof {
            assert forall|a: int, b: int|
                0 <= a < b < self.goals@.len() && one_active(before) implies !((
            #[trigger] self.goals@[a]).status == GoalStatus::Active && (
            #[trigger] self.goals@[b]).status == GoalStatus::Active) by {
                assert(!(before[a].status == GoalStatus::Active && before[b].status
                    == GoalStatus::Active));
            }
        }
        true
    }

    /// Gives a goal a new objective.
    pub fn edit_goal(&mut self, id: u128, objective: String) -> (r: bool)
        ensures
            r == (goal_position(old(self).goals@, id, 0) < old(self).goals@.len()),
            !r ==> *final(self) == *old(self),
            r ==> {
                &&& final(self).goals@ == edited(
                    old(self).goals@,
                    goal_position(old(self).goals@, id, 0),
                    objective,
                    final(self).updated_at,
                )
                &&& final(self).only_goals_changed(*old(self))
                &&& final(self).visible_goal_id == Some(id)
            },
            one_active(old(self).goals@) ==> one_active(final(self).goals@),
    {
        proof {
            lemma_goal_position(self.goals@, id, 0);
        }
        self.edit_goal_at(id, objective, crate::clock::now())
    }

    /// Makes a goal the active one at `now`.
    pub fn activate_goal_at(&mut self, id: u128, now: i128) -> (r: bool)
        ensures
            r == (goal_position(old(self).goals@, id, 0) < old(self).goals@.len()),
            !r ==> *final(self) == *old(self),
            r ==> {
                &&& final(self).goals@ == moved(
                    paused(old(self).goals@, now),
                    goal_position(old(self).goals@, id, 0),
                    GoalStatus::Active,
                    None,
                    now,
                )
                &&& final(self).only_goals_changed(*old(self))
                &&& final(self).visible_goal_id == Some(id)
                &&& final(self).updated_at == now
            },
            one_active(old(self).goals@) ==> one_active(final(self).goals@),
    {
        let ghost before = self.goals@;
        if self.find_goal(id) >= self.goals.len() {
            return false;
        }
        proof {
            lemma_paused_ids(before, now, id, 0);
            lemma_goal_position(before, id, 0);
            lemma_active_position(before, 0);
            assert(paused(before, now).len() == before.len());
            if one_active(before) {
                lemma_paused(before, now);
            }
        }
        let _ = self.pause_active_goal_at(now);
        let i: usize = self.find_goal(id);
        self.goals[i].status = GoalStatus::Active;
        self.goals[i].updated_at = now;
        self.goals[i].status_detail = None;
        self.visible_goal_id = Some(id);
        self.updated_at = now;
        true
    }

    /// Makes a goal the active one.
    pub fn activate_goal(&mut self, id: u128) -> (r: bool)
        ensures
            r == (goal_position(old(self).goals@, id, 0) < old(self).goals@.len()),
            !r ==> *final(self) == *old(self),
            r ==> {
                &&& final(self).goals@ == moved(
                    paused(old(self).goals@, final(self).updated_at),
                    goal_position(old(self).goals@, id, 0),
                    GoalStatus::Active,
                    None,
                    final(self).updated_at,
                )
                &&& final(self).only_goals_changed(*old(self))
                &&& final(self).visible_goal_id == Some(id)
            },
            one_active(old(self).goals@) ==> one_active(final(self).goals@),
    {
        proof {
            lemma_goal_position(self.goals@, id, 0);
            lemma_active_position(self.goals@, 0);
        }
        self.activate_goal_at(id, crate::clock::now())
    }

    /// Pauses a goal at `now`.
    pub fn pause_goal_at(&mut self, id: u128, now: i128) -> (r: bool)
        ensures
            r == (goal_position(old(self).goals@, id, 0) < old(self).goals@.len()),
            !r ==> *final(self) == *old(self),
            r ==> {
                &&& final(self).goals@ == moved(
                    old(self).goals@,
                    goal_position(old(self).goals@, id, 0),
                    GoalStatus::Paused,
                    None,
                    now,
                )
                &&& final(self).only_goals_changed(*old(self))
                &&& final(self).visible_goal_id == Some(id)
                &&& final(self).updated_at == now
            },
            one_active(old(self).goals@) ==> one_active(final(self).goals@),
    {
        let i: usize = self.find_goal(id);
        if i >= self.goals.len() {
            return false;
        }
        let ghost before = self.goals@;
        self.goals[i].status = GoalStatus::Paused;
        self.goals[i].updated_at = now;
        self.goals[i].status_detail = None;
        self.visible_goal_id = Some(id);
        self.updated_at = now;
        proof {
            assert forall|a: int, b: int|
                0 <= a < b < self.goals@.len() && one_active(before) implies !((
            #[trigger] self.goals@[a]).status == GoalStatus::Active && (
            #[trigger] self.goals@[b]).status == GoalStatus::Active) by {
                assert(!(before[a].status == GoalStatus::Active && before[b].status
                    == GoalStatus::Active));
            }
        }
        true
    }

    /// Pauses a goal.
    pub fn pause_goal(&mut self, id: u128) -> (r: bool)
        ensures
            r == (goal_position(old(self).goals@, id, 0) < old(self).goals@.len()),
            !r ==> *final(self) == *old(self),
            r ==> {
                &&& final(self).goals@ == moved(
                    old(self).goals@,
                    goal_position(old(self).goals@, id, 0),
                    GoalStatus::Paused,
                    None,
                    final(self).updated_at,
                )
                &&& final(self).only_goals_changed(*old(self))
                &&& final(self).visible_goal_id == Some(id)
            },
            one_active(old(self).goals@) ==> one_active(final(self).goals@),
    {
        proof {
            lemma_goal_position(self.goals@, id, 0);
        }
        self.pause_goal_at(id, crate::clock::now())
    }

    /// Ends the active goal at `now`: it was reached, or cannot be.
    pub fn finish_active_goal_at(
        &mut self,
        status: GoalStatus,
        detail: Option<String>,
        now: i128,
    ) -> (r: Option<u128>)
        requires
            status == GoalStatus::Completed || status == GoalStatus::Blocked,
        ensures
            r is Some == (active_position(old(self).goals@, 0) < old(self).goals@.len()),
            r is None ==> *final(self) == *old(self),
            r is Some ==> {
                let i = active_position(old(self).goals@, 0);
                &&& r == Some(old(self).goals@[i].id)
                &&& final(self).goals@ == moved(old(self).goals@, i, status, detail, now)
                &&& final(self).only_goals_changed(*old(self))
                &&& final(self).visible_goal_id == r
                &&& final(self).updated_at == now
            },
            one_active(old(self).goals@) ==> one_active(final(self).goals@),
    {
        let i: usize = self.find_active();
        if i >= self.goals.len() {
            return None;
        }
        let ghost before = self.goals@;
        let id: u128 = self.goals[i].id;
        self.goals[i].status = status;
        self.goals[i].updated_at = now;
        self.goals[i].status_detail = detail;
        self.visible_goal_id = Some(id);
        self.updated_at = now;
        proof {
            assert forall|a: int, b: int|
                0 <= a < b < self.goals@.len() && one_active(before) implies !((
            #[trigger] self.goals@[a]).status == GoalStatus::Active && (
            #[trigger] self.goals@[b]).status == GoalStatus::Active) by {
                assert(!(before[a].status == GoalStatus::Active && before[b].status
                    == GoalStatus::Active));
            }
        }
        Some(id)
    }

    /// Ends the active goal.
    pub fn finish_active_goal(
        &mut self,
        status: GoalStatus,
        detail: Option<String>,
    ) -> (r: Option<u128>)
        requires
            status == GoalStatus::Completed || status == GoalStatus::Blocked,
        ensures
            r is Some == (active_position(old(self).goals@, 0) < old(self).goals@.len()),
            r is None ==> *final(self) == *old(self),
            r is Some ==> {
                let i = active_position(old(self).goals@, 0);
                &&& r == Some(old(self).goals@[i].id)
                &&& final(self).goals@ == moved(old(self).goals@, i, status, detail, final(self).updated_at)
                &&& final(self).only_goals_changed(*old(self))
                &&& final(self).visible_goal_id == r
            },
            one_active(old(self).goals@) ==> one_active(final(self).goals@),
    {
        proof {
            lemma_active_position(self.goals@, 0);
        }
        self.finish_active_goal_at(status, detail, crate::clock::now())
    }

    /// Removes a goal at `now`; where it was the visible one, the goal updated last becomes it.
    pub fn delete_goal_at(&mut self, id: u128, now: i128) -> (r: bool)
        ensures
            r == (goal_position(old(self).goals@, id, 0) < old(self).goals@.len()),
            !r ==> *final(self) == *old(self),
            r ==> {
                let rest = old(self).goals@.remove(goal_position(old(self).goals@, id, 0));
                &&& final(self).goals@ == rest
                &&& final(self).only_goals_changed(*old(self))
                &&& final(self).visible_goal_id == visible_after_removal(
                    old(self).visible_goal_id,
                    id,
                    rest,
                )
                &&& final(self).updated_at == now
            },
            one_active(old(self).goals@) ==> one_active(final(self).goals@),
    {
        let i: usize = self.find_goal(id);
        if i >= self.goals.len() {
            return false;
        }
        let ghost before = self.goals@;
        let _ = self.goals.remove(i);
        proof {
            assert forall|a: int, b: int|
                0 <= a < b < self.goals@.len() && one_active(before) implies !((
            #[trigger] self.goals@[a]).status == GoalStatus::Active && (
            #[trigger] self.goals@[b]).status == GoalStatus::Active) by {
                let c = if a < i {
                    a
                } else {
                    a + 1
                };
                let d = if b < i {
                    b
                } else {
                    b + 1
                };
                assert(!(before[c].status == GoalStatus::Active && before[d].status
                    == GoalStatus::Active));
            }
        }
        if self.visible_goal_id == Some(id) {
            let mut best: Option<usize> = None;
            let mut n: usize = 0;
            while n < self.goals.len()
                invariant
                    n <= self.goals@.len(),
                    best is Some == latest_goal(self.goals@, n as nat) is Some,
                    best matches Some(b) ==> b < self.goals@.len() && latest_goal(
                        self.goals@,
                        n as nat,
                    ) == Some(b as int),
                decreases self.goals@.len() - n,
            {
                match best {
                    Some(b) => {
                        if self.goals[n].updated_at >= self.goals[b].updated_at {
                            best = Some(n);
                        }
                    },
                    None => {
                        best = Some(n);
                    },
                }
                n += 1;
            }
            self.visible_goal_id = match best {
                Some(b) => Some(self.goals[b].id),
                None => None,
            };
        }
        self.updated_at = now;
        true
    }

    /// Removes a goal.
    pub fn delete_goal(&mut self, id: u128) -> (r: bool)
        ensures
            r == (goal_position(old(self).goals@, id, 0) < old(self).goals@.len()),
            !r ==> *final(self) == *old(self),
            r ==> {
                let rest = old(self).goals@.remove(goal_position(old(self).goals@, id, 0));
                &&& final(self).goals@ == rest
                &&& final(self).only_goals_changed(*old(self))
                &&& final(self).visible_goal_id == visible_after_removal(
                    old(self).visible_goal_id,
                    id,
                    rest,
                )
            },
            one_active(old(self).goals@) ==> one_active(final(self).goals@),
    {
        self.delete_goal_at(id, crate::clock::now())
    }

    /// Finds the message indexes of activities and turns on the active path anew.
    pub fn refresh_active_indexes(&mut self)
        ensures
            *final(self) == (Session {
                activities: final(self).activities,
                turns: final(self).turns,
                ..*old(self)
            }),
            final(self).turns@ == refreshed_turns(old(self).turns@, old(self).messages@.ids),
            final(self).activities@ == refreshed_activities(
                old(self).activities@,
                old(self).messages@.ids,
            ),
    {
        let ghost ids = self.messages@.ids;
        let ghost before = *self;
        let mut i: usize = 0;
        while i < self.activities.len()
            invariant
                i <= self.activities@.len(),
                ids == self.messages@.ids,
                *self == (Session { activities: self.activities, ..before }),
                self.activities@.len() == before.activities@.len(),
                forall|j: int|
                    0 <= j < i ==> #[trigger] self.activities@[j] == refreshed_activities(
                        before.activities@,
                        ids,
                    )[j],
                forall|j: int|
                    i <= j < self.activities@.len() ==> #[trigger] self.activities@[j]
                        == before.activities@[j],
            decreases self.activities@.len() - i,
        {
            let index: usize = index_on_path(
                self.messages.active_node_ids(),
                self.activities[i].turn_message_id,
            );
            self.activities[i].turn_message_index = index;
            i += 1;
        }
        assert(self.activities@ == refreshed_activities(before.activities@, ids));
        let ghost middle = *self;
        let mut i: usize = 0;
        while i < self.turns.len()
            invariant
                i <= self.turns@.len(),
                ids == self.messages@.ids,
                *self == (Session { turns: self.turns, ..middle }),
                self.turns@.len() == before.turns@.len(),
                forall|j: int|
                    0 <= j < i ==> #[trigger] self.turns@[j] == refreshed_turns(
                        before.turns@,
                        ids,
                    )[j],
                forall|j: int|
                    i <= j < self.turns@.len() ==> #[trigger] self.turns@[j] == before.turns@[j],
            decreases self.turns@.len() - i,
        {
            let index: usize = index_on_path(
                self.messages.active_node_ids(),
                self.turns[i].message_id,
            );
            let turn = self.turns[i];
            self.turns.set(i, AgentTurn { message_index: index, ..turn });
            i += 1;
        }
        assert(self.turns@ == refreshed_turns(before.turns@, ids));
    }

    /// Makes the branch of a node the active one, at `now`.
    pub fn select_branch_at(&mut self, node_id: u128, now: i128) -> (r: Result<u128, BranchError>)
        requires
            old(self).messages.wf(),
        ensures
            final(self).messages.wf(),
            r is Ok == conversation::holds(old(self).messages@.nodes, node_id),
            r matches Err(e) ==> e == BranchError::MissingNode(node_id) && final(self).messages@
                == old(self).messages@ && *final(self) == (Session {
                messages: final(self).messages,
                ..*old(self)
            }),
            r matches Ok(leaf) ==> {
                let nodes = old(self).messages@.nodes;
                &&& leaf == conversation::oldest_leaf(nodes, node_id, nodes.len())
                &&& final(self).messages@ == TreeView::of(nodes, Some(leaf))
                &&& final(self).turns@ == refreshed_turns(
                    old(self).turns@,
                    final(self).messages@.ids,
                )
                &&& final(self).activities@ == refreshed_activities(
                    old(self).activities@,
                    final(self).messages@.ids,
                )
                &&& *final(self) == (Session {
                    messages: final(self).messages,
                    turns: final(self).turns,
                    activities: final(self).activities,
                    updated_at: now,
                    ..*old(self)
                })
            },
    {
        match self.messages.select_from_node(node_id) {
            Ok(leaf) => {
                self.refresh_active_indexes();
                self.updated_at = now;
                Ok(leaf)
            },
            Err(e) => Err(e),
        }
    }

    /// Makes the branch of a node the active one.
    pub fn select_branch(&mut self, node_id: u128) -> (r: Result<u128, BranchError>)
        requires
            old(self).messages.wf(),
        ensures
            final(self).messages.wf(),
            r is Ok == conversation::holds(old(self).messages@.nodes, node_id),
            r matches Err(e) ==> e == BranchError::MissingNode(node_id) && final(self).messages@
                == old(self).messages@ && *final(self) == (Session {
                messages: final(self).messages,
                ..*old(self)
            }),
            r matches Ok(leaf) ==> {
                let nodes = old(self).messages@.nodes;
                &&& leaf == conversation::oldest_leaf(nodes, node_id, nodes.len())
                &&& final(self).messages@ == TreeView::of(nodes, Some(leaf))
                &&& final(self).turns@ == refreshed_turns(
                    old(self).turns@,
                    final(self).messages@.ids,
                )
                &&& final(self).activities@ == refreshed_activities(
                    old(self).activities@,
                    final(self).messages@.ids,
                )
                &&& *final(self) == (Session {
                    messages: final(self).messages,
                    turns: final(self).turns,
                    activities: final(self).activities,
                    updated_at: final(self).updated_at,
                    ..*old(self)
                })
            },
    {
        self.select_branch_at(node_id, crate::clock::now())
    }

    /// A copy of the session as it is once the branch of a node is the active one, at `now`.
    pub fn preview_branch(copy: Session, node_id: u128, now: i128) -> (r: Result<
        Session,
        BranchError,
    >)
        requires
            copy.messages.wf(),
        ensures
            r is Ok == conversation::holds(copy.messages@.nodes, node_id),
            r matches Err(e) ==> e == BranchError::MissingNode(node_id),
            r matches Ok(preview) ==> {
                let nodes = copy.messages@.nodes;
                let leaf = conversation::oldest_leaf(nodes, node_id, nodes.len());
                &&& preview.messages.wf()
                &&& preview.messages@ == TreeView::of(nodes, Some(leaf))
                &&& preview.turns@ == refreshed_turns(copy.turns@, preview.messages@.ids)
                &&& preview.activities@ == refreshed_activities(
                    copy.activities@,
                    preview.messages@.ids,
                )
                &&& preview == (Session {
                    messages: preview.messages,
                    turns: preview.turns,
                    activities: preview.activities,
                    updated_at: now,
                    ..copy
                })
            },
    {
        let mut preview = copy;
        match preview.select_branch_at(node_id, now) {
            Ok(_) => Ok(preview),
            Err(e) => Err(e),
        }
    }

    /// Hangs an edited message called `new_id` beside a message of the user, at `now`. Editing the
    /// first message changes the title.
    pub fn edit_user_message_as(
        &mut self,
        node_id: u128,
        message: Message,
        new_id: u128,
        now: i128,
    ) -> (r: Result<u128, EditError>)
        requires
            old(self).messages.wf(),
        ensures
            message_edited(*old(self), *final(self), node_id, message@, new_id, now, r),
    {
        let content: String = match &message.content {
            Some(s) => s.clone(),
            None => String::new(),
        };
        assert(content@ == content_of(message@));
        if text::trim(&content).is_empty() {
            return Err(EditError::Empty);
        }
        let editing_root = self.messages.message(node_id).is_some() && self.messages.parent(
            node_id,
        ).is_none();
        match self.messages.branch_from_edited_with(node_id, message, new_id) {
            Ok(id) => {
                self.refresh_active_indexes();
                if editing_root {
                    self.title = text::take_chars(&content, 72).to_owned();
                }
                self.updated_at = now;
                Ok(id)
            },
            Err(e) => Err(EditError::Branch(e)),
        }
    }

    /// Hangs an edited message beside a message of the user, under a new id.
    pub fn edit_user_message_with(&mut self, node_id: u128, message: Message) -> (r: Result<
        u128,
        EditError,
    >)
        requires
            old(self).messages.wf(),
        ensures
            message_edited(
                *old(self),
                *final(self),
                node_id,
                message@,
                final(self).messages@.leaf->0,
                final(self).updated_at,
                r,
            ),
    {
        let new_id: u128 = ids::random_id();
        self.edit_user_message_as(node_id, message, new_id, crate::clock::now())
    }

    /// Hangs an edited text, written now, beside a message of the user.
    pub fn edit_user_message(&mut self, node_id: u128, content: &str) -> (r: Result<
        u128,
        EditError,
    >)
        requires
            old(self).messages.wf(),
        ensures
            exists|at: i128| #[trigger]
                message_edited(
                    *old(self),
                    *final(self),
                    node_id,
                    message::user_text(content@, at),
                    final(self).messages@.leaf->0,
                    final(self).updated_at,
                    r,
                ),
    {
        let message = Message::text(Role::User, content);
        assert(message@ == message::user_text(content@, message@.created_at->0));
        self.edit_user_message_with(node_id, message)
    }

    /// Whether what belongs to the branch of `leaf` belongs to the active path.
    fn belongs_to_active_path(&self, leaf: Option<u128>) -> (r: bool)
        requires
            self.messages.wf(),
        ensures
            r == on_active_path(self.messages@, leaf),
    {
        match leaf {
            None => true,
            Some(l) => match self.messages.active_leaf_id() {
                Some(active) => self.messages.is_ancestor(l, active),
                None => false,
            },
        }
    }

    /// The last compaction of the active path.
    pub fn latest_compaction(&self) -> (r: Option<&CompactionCheckpoint>)
        requires
            self.messages.wf(),
        ensures
            r == (match last_checkpoint(
                self.compaction_checkpoints@,
                self.messages@,
                self.compaction_checkpoints@.len(),
            ) {
                Some(i) => Some(&self.compaction_checkpoints@[i]),
                None => None,
            }),
    {
        let mut n: usize = self.compaction_checkpoints.len();
        while n > 0
            invariant
                n <= self.compaction_checkpoints@.len(),
                self.messages.wf(),
                last_checkpoint(
                    self.compaction_checkpoints@,
                    self.messages@,
                    self.compaction_checkpoints@.len(),
                ) == last_checkpoint(self.compaction_checkpoints@, self.messages@, n as nat),
            decreases n,
        {
            if self.belongs_to_active_path(self.compaction_checkpoints[n - 1].branch_leaf_id) {
                return Some(&self.compaction_checkpoints[n - 1]);
            }
            n -= 1;
        }
        None
    }

    /// What the last request took, where it belongs to the active path.
    pub fn latest_request_usage(&self) -> (r: Option<&RequestUsage>)
        requires
            self.messages.wf(),
        ensures
            r == (match self.latest_request_usage {
                Some(u) => if on_active_path(self.messages@, u.branch_leaf_id) {
                    Some(&u)
                } else {
                    None
                },
                None => None,
            }),
    {
        match &self.latest_request_usage {
            Some(usage) => if self.belongs_to_active_path(usage.branch_leaf_id) {
                Some(usage)
            } else {
                None
            },
            None => None,
        }
    }
}

// ---------------------------------------------------------------------------
// What is kept of goals and turns

/// The goal that is meant is the first one of its id, and none only where there is no such goal.
pub proof fn the_goal_meant_has_the_id(goals: Seq<Goal>, id: u128)
    ensures
        ({
            let p = goal_position(goals, id, 0);
            &&& p < goals.len() <==> exists|i: int|
                0 <= i < goals.len() && (#[trigger] goals[i]).id == id
            &&& p < goals.len() ==> 0 <= p && goals[p].id == id
            &&& forall|i: int| 0 <= i < p && i < goals.len() ==> (#[trigger] goals[i]).id != id
        }),
{
    lemma_goal_position(goals, id, 0);
    lemma_first_goal(goals, id, 0);
    let p = goal_position(goals, id, 0);
    if p < goals.len() {
        assert(goals[p].id == id);
    }
}

proof fn lemma_first_goal(goals: Seq<Goal>, id: u128, from: int)
    requires
        0 <= from <= goals.len(),
    ensures
        forall|i: int|
            from <= i < goal_position(goals, id, from) && i < goals.len() ==> (
            #[trigger] goals[i]).id != id,
    decreases goals.len() - from,
{
    if from < goals.len() && goals[from].id != id {
        lemma_first_goal(goals, id, from + 1);
    }
}

/// To pause the active goal leaves every goal with its objective; of a session with at most one active
/// goal none is active then, and the one that was is paused now.
pub proof fn pausing_leaves_no_goal_active(goals: Seq<Goal>, now: i128)
    requires
        one_active(goals),
    ensures
        paused(goals, now).len() == goals.len(),
        forall|i: int|
            #![trigger paused(goals, now)[i]]
            0 <= i < goals.len() ==> {
                let g = paused(goals, now)[i];
                &&& g.id == goals[i].id && g.objective == goals[i].objective && g.created_at
                    == goals[i].created_at
                &&& g.status != GoalStatus::Active
                &&& goals[i].status == GoalStatus::Active ==> g.status == GoalStatus::Paused
                    && g.updated_at == now
                &&& goals[i].status != GoalStatus::Active ==> g == goals[i]
            },
{
    lemma_active_position(goals, 0);
    lemma_paused(goals, now);
    let p = active_position(goals, 0);
    assert forall|i: int| #![trigger paused(goals, now)[i]] 0 <= i < goals.len() implies {
        let g = paused(goals, now)[i];
        &&& g.id == goals[i].id && g.objective == goals[i].objective && g.created_at
            == goals[i].created_at
        &&& g.status != GoalStatus::Active
        &&& goals[i].status == GoalStatus::Active ==> g.status == GoalStatus::Paused
            && g.updated_at == now
        &&& goals[i].status != GoalStatus::Active ==> g == goals[i]
    } by {
        if goals[i].status == GoalStatus::Active {
            assert(p <= i);
            if p < i {
                assert(goals[p].status == GoalStatus::Active);
            }
        } else if i == p {
            assert(goals[p].status == GoalStatus::Active);
        }
    }
}

/// To edit a goal gives it the new objective and touches no other; one that was over is paused.
pub proof fn editing_touches_one_goal(goals: Seq<Goal>, i: int, objective: String, now: i128)
    requires
        0 <= i < goals.len(),
    ensures
        ({
            let after = edited(goals, i, objective, now);
            &&& after.len() == goals.len()
            &&& forall|j: int| 0 <= j < goals.len() && j != i ==> #[trigger] after[j] == goals[j]
            &&& after[i].id == goals[i].id
            &&& after[i].objective == objective
            &&& after[i].updated_at == now
            &&& after[i].created_at == goals[i].created_at
            &&& goals[i].status == GoalStatus::Active ==> after[i].status == GoalStatus::Active
            &&& goals[i].status != GoalStatus::Active ==> after[i].status == GoalStatus::Paused
        }),
{
}

/// To bring a goal into a state touches no other goal and keeps its objective.
pub proof fn moving_touches_one_goal(
    goals: Seq<Goal>,
    i: int,
    status: GoalStatus,
    detail: Option<String>,
    now: i128,
)
    requires
        0 <= i < goals.len(),
    ensures
        ({
            let after = moved(goals, i, status, detail, now);
            &&& after.len() == goals.len()
            &&& forall|j: int| 0 <= j < goals.len() && j != i ==> #[trigger] after[j] == goals[j]
            &&& after[i].id == goals[i].id
            &&& after[i].objective == goals[i].objective
            &&& after[i].status == status
            &&& after[i].status_detail == detail
            &&& after[i].updated_at == now
        }),
{
}

/// Whether a goal was changed last; of two that were changed at once, the later one counts.
pub open spec fn changed_last(goals: Seq<Goal>, b: int) -> bool {
    &&& 0 <= b < goals.len()
    &&& forall|i: int| 0 <= i <= b ==> (#[trigger] goals[i]).updated_at <= goals[b].updated_at
    &&& forall|i: int|
        b < i < goals.len() ==> (#[trigger] goals[i]).updated_at < goals[b].updated_at
}

/// When the goal that is seen goes, the one that was changed last is seen; where another goes, the one
/// that is seen stays.
pub proof fn the_goal_changed_last_is_seen_next(visible: Option<u128>, id: u128, rest: Seq<Goal>)
    ensures
        visible != Some(id) ==> visible_after_removal(visible, id, rest) == visible,
        visible == Some(id) && rest.len() == 0 ==> visible_after_removal(visible, id, rest) is None,
        visible == Some(id) && rest.len() > 0 ==> exists|b: int| #[trigger]
            changed_last(rest, b) && visible_after_removal(visible, id, rest) == Some(rest[b].id),
{
    lemma_latest_goal(rest, rest.len());
    if visible == Some(id) && rest.len() > 0 {
        let b = latest_goal(rest, rest.len())->0;
        assert(changed_last(rest, b));
    }
}

proof fn lemma_latest_goal(goals: Seq<Goal>, n: nat)
    requires
        n <= goals.len(),
    ensures
        n == 0 ==> latest_goal(goals, n) is None,
        n > 0 ==> latest_goal(goals, n) is Some && 0 <= latest_goal(goals, n)->0 < n,
        forall|i: int|
            0 <= i < n ==> (#[trigger] goals[i]).updated_at <= goals[latest_goal(
                goals,
                n,
            )->0].updated_at,
        forall|i: int|
            latest_goal(goals, n) is Some && latest_goal(goals, n)->0 < i < n ==> (
            #[trigger] goals[i]).updated_at < goals[latest_goal(goals, n)->0].updated_at,
    decreases n,
{
    if n > 0 {
        lemma_latest_goal(goals, (n - 1) as nat);
    }
}

/// The turn of a message that is meant is the last one of it.
pub proof fn the_last_turn_is_meant(turns: Seq<AgentTurn>, id: u128, n: nat)
    requires
        n <= turns.len(),
    ensures
        last_turn(turns, id, n) matches Some(i) ==> 0 <= i < n && turns[i].message_id == id
            && forall|j: int| i < j < n ==> (#[trigger] turns[j]).message_id != id,
        last_turn(turns, id, n) is None ==> forall|j: int|
            0 <= j < n ==> (#[trigger] turns[j]).message_id != id,
    decreases n,
{
    if n > 0 {
        the_last_turn_is_meant(turns, id, (n - 1) as nat);
    }
}

/// The place of a message on the active path is where its id stands, and none where it does not.
pub proof fn the_place_on_the_path_has_the_id(ids: Seq<u128>, id: u128, n: nat)
    requires
        n <= ids.len() < usize::MAX,
    ensures
        (exists|i: int| 0 <= i < n && #[trigger] ids[i] == id) ==> active_index(ids, id, n) < n
            && ids[active_index(ids, id, n) as int] == id,
        (forall|i: int| 0 <= i < n ==> #[trigger] ids[i] != id) ==> active_index(ids, id, n)
            == usize::MAX,
    decreases n,
{
    if n > 0 {
        the_place_on_the_path_has_the_id(ids, id, (n - 1) as nat);
    }
}

/// Turns and activities keep all that is known of them but their places on the active path.
pub proof fn only_places_are_found_anew(
    turns: Seq<AgentTurn>,
    activities: Seq<AgentActivity>,
    ids: Seq<u128>,
)
    ensures
        refreshed_turns(turns, ids).len() == turns.len(),
        refreshed_activities(activities, ids).len() == activities.len(),
        forall|i: int|
            #![trigger refreshed_turns(turns, ids)[i]]
            0 <= i < turns.len() ==> refreshed_turns(turns, ids)[i].message_id
                == turns[i].message_id && refreshed_turns(turns, ids)[i].outcome == turns[i].outcome
                && refreshed_turns(turns, ids)[i].completed_at == turns[i].completed_at
                && refreshed_turns(turns, ids)[i].change_id == turns[i].change_id,
        forall|i: int|
            #![trigger refreshed_activities(activities, ids)[i]]
            0 <= i < activities.len() ==> refreshed_activities(activities, ids)[i].id
                == activities[i].id && refreshed_activities(activities, ids)[i].turn_message_id
                == activities[i].turn_message_id,
{
}

/// The summary of earlier messages that counts is the last one that belongs to the active path.
pub proof fn the_last_checkpoint_of_the_path_counts(
    checkpoints: Seq<CompactionCheckpoint>,
    tree: TreeView,
    n: nat,
)
    requires
        n <= checkpoints.len(),
    ensures
        last_checkpoint(checkpoints, tree, n) matches Some(i) ==> 0 <= i < n && on_active_path(
            tree,
            checkpoints[i].branch_leaf_id,
        ) && forall|j: int|
            i < j < n ==> !on_active_path(tree, (#[trigger] checkpoints[j]).branch_leaf_id),
        last_checkpoint(checkpoints, tree, n) is None ==> forall|j: int|
            0 <= j < n ==> !on_active_path(tree, (#[trigger] checkpoints[j]).branch_leaf_id),
    decreases n,
{
    if n > 0 {
        the_last_checkpoint_of_the_path_counts(checkpoints, tree, (n - 1) as nat);
    }
}

/// A message that the user edits hangs beside the one that was edited, under a new id and where the
/// conversation goes on, and what was there stays; an edited first message names the session. A
/// message without words, or one that the user did not write, is not edited.
pub proof fn an_edited_message_hangs_beside_the_other(
    before: Session,
    after: Session,
    node_id: u128,
    message: MessageView,
    new_id: u128,
    now: i128,
    r: Result<u128, EditError>,
)
    requires
        before.messages.wf(),
        !conversation::holds(before.messages@.nodes, new_id),
        message_edited(before, after, node_id, message, new_id, now, r),
    ensures
        text::trimmed(content_of(message)).len() == 0 ==> r is Err && after == before,
        text::trimmed(content_of(message)).len() > 0 && conversation::visible_at(
            before.messages@.nodes,
            node_id,
        ) ==> {
            let parent = conversation::parent_of(before.messages@.nodes, node_id);
            &&& r == Ok::<u128, EditError>(new_id)
            &&& after.messages@.leaf == Some(new_id)
            &&& conversation::parent_of(after.messages@.nodes, new_id) == parent
            &&& after.messages@.messages.last() == message
            &&& after.messages@.nodes.take(before.messages@.nodes.len() as int)
                == before.messages@.nodes
            &&& after.updated_at == now
            &&& after.goals == before.goals && after.terminals == before.terminals
                && after.attachments == before.attachments
            &&& parent is None ==> after.title@ == text::first_chars(content_of(message), 72)
            &&& parent is Some ==> after.title == before.title || after.title@ == before.title@
        },
        text::trimmed(content_of(message)).len() > 0 && !conversation::visible_at(
            before.messages@.nodes,
            node_id,
        ) ==> r is Err && after.messages@ == before.messages@,
{
    let t = before.messages@;
    let parent = conversation::parent_of(t.nodes, node_id);
    if conversation::visible_at(t.nodes, node_id) {
        lemma_parent_there(t.nodes, t.leaf, node_id);
        conversation::a_new_message_hangs_where_it_was_written(t, parent, message, new_id);
        conversation::a_branch_keeps_every_earlier_message(t, parent, message, new_id);
    }
}

proof fn lemma_parent_there(nodes: Seq<conversation::NodeView>, leaf: Option<u128>, id: u128)
    requires
        conversation::tree_error(nodes, leaf) is None,
        conversation::holds(nodes, id),
    ensures
        conversation::parent_of(nodes, id) is Some ==> conversation::holds(
            nodes,
            conversation::parent_of(nodes, id)->0,
        ),
{
    lemma_found(nodes, id, 0);
    assert(conversation::parent_present(nodes, conversation::find(nodes, id, 0)));
}

proof fn lemma_found(nodes: Seq<conversation::NodeView>, id: u128, from: int)
    requires
        0 <= from <= nodes.len(),
        exists|i: int| from <= i < nodes.len() && (#[trigger] nodes[i]).id == id,
    ensures
        from <= conversation::find(nodes, id, from) < nodes.len(),
    decreases nodes.len() - from,
{
    if nodes[from].id != id {
        lemma_found(nodes, id, from + 1);
    }
}

/// Events of a session are numbered one behind the other.
pub proof fn events_are_numbered_in_a_row(s: &mut Session, n: u64)
    requires
        call_ensures(Session::reserve_event_sequence, (s,), n),
    ensures
        n == old(s).next_event_sequence,
        n < u64::MAX ==> final(s).next_event_sequence == n + 1,
        final(s).messages == old(s).messages,
        final(s).turns == old(s).turns,
        final(s).goals == old(s).goals,
        final(s).id == old(s).id,
{
}

/// The end of a turn is recorded in the last one; the earlier ones and all else stay.
pub proof fn the_end_of_a_turn_is_recorded_in_the_last(
    s: &mut Session,
    outcome: TurnOutcome,
    at: i128,
    i: int,
)
    requires
        call_ensures(Session::finish_latest_turn, (s, outcome, at), ()),
        0 <= i < old(s).turns@.len(),
    ensures
        final(s).turns@.len() == old(s).turns@.len(),
        i < old(s).turns@.len() - 1 ==> final(s).turns@[i] == old(s).turns@[i],
        final(s).turns@.last().outcome == Some(outcome),
        final(s).turns@.last().completed_at == Some(at),
        final(s).turns@.last().message_id == old(s).turns@.last().message_id,
        final(s).turns@.last().started_at == old(s).turns@.last().started_at,
        final(s).updated_at == at,
        final(s).messages == old(s).messages,
        final(s).goals == old(s).goals,
{
}

/// A new goal is the last one, active and seen, and no other is active beside it.
pub proof fn a_new_goal_is_active(s: &mut Session, objective: String, id: u128, now: i128)
    requires
        call_ensures(Session::create_goal_with, (s, objective, id, now), ()),
        one_active(old(s).goals@),
    ensures
        final(s).goals@.len() == old(s).goals@.len() + 1,
        final(s).goals@.last().id == id,
        final(s).goals@.last().objective == objective,
        final(s).goals@.last().status == GoalStatus::Active,
        final(s).visible_goal_id == Some(id),
        one_active(final(s).goals@),
        final(s).messages == old(s).messages,
        final(s).turns == old(s).turns,
{
    lemma_active_position(old(s).goals@, 0);
}

/// A goal that is deleted is gone, and the others stay in their order.
pub proof fn deleting_takes_one_goal(s: &mut Session, id: u128, now: i128, r: bool, i: int)
    requires
        call_ensures(Session::delete_goal_at, (s, id, now), r),
        0 <= i < old(s).goals@.len(),
        old(s).goals@[i].id == id,
        forall|j: int|
            0 <= j < old(s).goals@.len() && j != i ==> (#[trigger] old(s).goals@[j]).id != id,
    ensures
        r,
        final(s).goals@.len() == old(s).goals@.len() - 1,
        forall|j: int| 0 <= j < i ==> #[trigger] final(s).goals@[j] == old(s).goals@[j],
        forall|j: int|
            i <= j < final(s).goals@.len() ==> #[trigger] final(s).goals@[j] == old(s).goals@[j + 1],
        final(s).updated_at == now,
{
    the_goal_meant_has_the_id(old(s).goals@, id);
    let p = goal_position(old(s).goals@, id, 0);
    assert(p == i);
}

/// A turn that begins is the last one, open, and belongs to its message.
pub proof fn a_turn_begins_open(s: &mut Session, message_id: u128, index: usize, at: i128)
    requires
        call_ensures(Session::start_turn, (s, message_id, index, at), ()),
    ensures
        final(s).turns@.len() == old(s).turns@.len() + 1,
        final(s).turns@.drop_last() == old(s).turns@,
        final(s).turns@.last().message_id == message_id,
        final(s).turns@.last().started_at == at,
        final(s).turns@.last().completed_at is None,
        final(s).turns@.last().outcome is None,
        final(s).messages == old(s).messages,
{
    assert(final(s).turns@.drop_last() == old(s).turns@);
}

} // verus!
