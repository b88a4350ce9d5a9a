//! What the server has selected, and what it shows of it.
use crate::api;
use crate::api::{ApiError, Refusal, Status};
use crate::catalog;
use crate::catalog::{EntryView, ModelCatalogEntry};
use crate::json::Json;
use crate::live::ListedProject;
use crate::message;
use crate::overview::CronSnapshot;
use crate::upload::SessionScope;
use vstd::prelude::*;
use vstd::string::*;

verus! {

/// What the server has selected.
#[derive(Debug)]
pub struct ServerWorkspace {
    pub root: String,
    pub project_selected: bool,
    pub selected_session: Option<u128>,
}

impl ServerWorkspace {
    /// What is selected when the server starts: no project and no session.
    pub fn new(root: String) -> (w: ServerWorkspace)
        ensures
            w == (ServerWorkspace { root, project_selected: false, selected_session: None }),
    {
        ServerWorkspace { root, project_selected: false, selected_session: None }
    }

    /// Selects a session.
    pub fn install_conversation(&mut self, root: String, scope: SessionScope, id: u128)
        ensures
            *final(self) == (ServerWorkspace {
                root,
                project_selected: scope == SessionScope::Project,
                selected_session: Some(id),
            }),
    {
        self.root = root;
        self.project_selected = scope == SessionScope::Project;
        self.selected_session = Some(id);
    }

    /// Selects a project, and no session.
    pub fn open_project(&mut self, root: String)
        ensures
            *final(self) == (ServerWorkspace {
                root,
                project_selected: true,
                selected_session: None,
            }),
    {
        self.root = root;
        self.project_selected = true;
        self.selected_session = None;
    }

    /// Selects no session any more.
    pub fn leave_session(&mut self, root: String, scope: SessionScope)
        ensures
            *final(self) == (ServerWorkspace {
                root,
                project_selected: scope == SessionScope::Project,
                selected_session: None,
            }),
    {
        self.root = root;
        self.project_selected = scope == SessionScope::Project;
        self.selected_session = None;
    }
}

// ---------------------------------------------------------------------------
// Going on with a session

/// What resuming a session takes.
#[derive(Clone, Copy, Debug, PartialEq, Eq, Structural)]
pub struct ResumePlan {
    /// The session that is left.
    pub leaves: Option<u128>,
    /// Whether the session is open already.
    pub is_open: bool,
}

/// What resuming a session takes: another one that is selected is left, and the session is opened
/// unless it is open.
pub fn resume_session(selected: Option<u128>, target: u128, open: &Vec<u128>) -> (r: ResumePlan)
    ensures
        r == (ResumePlan {
            leaves: match selected {
                Some(id) if id != target => Some(id),
                _ => None,
            },
            is_open: open@.contains(target),
        }),
{
    let leaves = match selected {
        Some(id) => if id != target {
            Some(id)
        } else {
            None
        },
        None => None,
    };
    ResumePlan { leaves, is_open: api::has_id(open, target) }
}

// ---------------------------------------------------------------------------
// Deleting a session

/// Whether terminals have to be ended before a session is deleted, of an open session with so many
/// running ones; it is refused where that was not wanted.
pub fn check_deletion(running_terminals: Option<usize>, stop_processes: bool) -> (r: Result<
    bool,
    ApiError,
>)
    ensures
        match running_terminals {
            Some(n) if n > 0 => if stop_processes {
                r == Ok::<bool, ApiError>(true)
            } else {
                r matches Err(e) && e@ == (Refusal {
                    status: Status::Conflict,
                    error: "confirm stopping active processes before deleting this session"@,
                })
            },
            _ => r == Ok::<bool, ApiError>(false),
        },
{
    match running_terminals {
        Some(n) => if n == 0 {
            Ok(false)
        } else if stop_processes {
            Ok(true)
        } else {
            Err(
                ApiError::message(
                    Status::Conflict,
                    "confirm stopping active processes before deleting this session",
                ),
            )
        },
        None => Ok(false),
    }
}

/// What is selected once a session is deleted.
#[derive(Clone, Copy, Debug, PartialEq, Eq, Structural)]
pub enum Replacement {
    /// What was selected.
    Unchanged,
    /// Another session.
    Session(u128),
    /// No session.
    Nothing,
}

/// The position of the first id at or after `i`.
pub open spec fn id_at(ids: Seq<u128>, id: u128, i: int) -> int
    decreases ids.len() - i,
{
    if i >= ids.len() {
        ids.len() as int
    } else if ids[i] == id {
        i
    } else {
        id_at(ids, id, i + 1)
    }
}

/// What is selected once a session is deleted: where it was selected, the one that is then listed
/// where it was, or else the last.
pub open spec fn replaced_by(
    selected: Option<u128>,
    target: u128,
    listed: Seq<u128>,
    remaining: Seq<u128>,
) -> Replacement {
    let at = id_at(listed, target, 0);
    if selected != Some(target) {
        Replacement::Unchanged
    } else if at >= listed.len() || remaining.len() == 0 {
        Replacement::Nothing
    } else if at < remaining.len() {
        Replacement::Session(remaining[at])
    } else {
        Replacement::Session(remaining.last())
    }
}

/// What is selected once a session is deleted; `listed` are the sessions before, `remaining` those
/// after it.
pub fn delete_session(
    selected: Option<u128>,
    target: u128,
    listed: &Vec<u128>,
    remaining: &Vec<u128>,
) -> (r: Replacement)
    ensures
        r == replaced_by(selected, target, listed@, remaining@),
{
    let active = match selected {
        Some(id) => id == target,
        None => false,
    };
    if !active {
        return Replacement::Unchanged;
    }
    let mut at: usize = 0;
    while at < listed.len() && listed[at] != target
        invariant
            at <= listed@.len(),
            id_at(listed@, target, 0) == id_at(listed@, target, at as int),
        decreases listed@.len() - at,
    {
        at += 1;
    }
    if at == listed.len() || remaining.len() == 0 {
        Replacement::Nothing
    } else if at < remaining.len() {
        Replacement::Session(remaining[at])
    } else {
        Replacement::Session(remaining[remaining.len() - 1])
    }
}

/// A deleted session is never what is selected instead, and nothing is only where no session is left.
pub proof fn a_deleted_session_is_not_selected(target: u128, listed: Seq<u128>, remaining: Seq<u128>)
    requires
        listed.contains(target),
        !remaining.contains(target),
    ensures
        match replaced_by(Some(target), target, listed, remaining) {
            Replacement::Unchanged => false,
            Replacement::Session(id) => id != target && remaining.contains(id),
            Replacement::Nothing => remaining.len() == 0,
        },
{
    let k = choose|k: int| 0 <= k < listed.len() && listed[k] == target;
    lemma_id_at(listed, target, 0, k);
}

proof fn lemma_id_at(ids: Seq<u128>, id: u128, i: int, k: int)
    requires
        0 <= i <= k < ids.len(),
        ids[k] == id,
    ensures
        i <= id_at(ids, id, i) <= k,
    decreases ids.len() - i,
{
    if ids[i] != id {
        lemma_id_at(ids, id, i + 1, k);
    }
}

// ---------------------------------------------------------------------------
// What is shown

/// An open conversation, as far as it is shown.
#[derive(Debug)]
pub struct ConversationInfo {
    pub project_root: String,
    pub scope: SessionScope,
    pub model_catalog: Vec<ModelCatalogEntry>,
    /// The session as it is shown.
    pub session: Vec<(String, Json)>,
}

/// What is known of the models of a session.
#[derive(Debug)]
pub struct CatalogState {
    pub models: Vec<ModelCatalogEntry>,
    pub error: Option<String>,
}

/// What is known of the models of a session once they were asked for.
pub fn load_catalog(fetched: Result<Vec<ModelCatalogEntry>, String>) -> (r: CatalogState)
    ensures
        match fetched {
            Ok(models) => r.models == models && r.error is None,
            Err(e) => r.models@.len() == 0 && r.error == Some(e),
        },
{
    match fetched {
        Ok(models) => CatalogState { models, error: None },
        Err(e) => CatalogState { models: Vec::new(), error: Some(e) },
    }
}

/// Whose skills are shown.
#[derive(Clone, Copy, Debug, PartialEq, Eq, Structural)]
pub enum SkillSource {
    /// Those of the conversation.
    Conversation,
    /// Those that are found from the project on.
    Project,
    /// Those that belong to no project.
    Global,
}

/// What the server knows besides what is selected.
#[derive(Debug)]
pub struct Surroundings<U, P, W> {
    pub live_revision: u64,
    /// Where the file system of the shown root begins.
    pub filesystem_root: String,
    pub projects: Vec<ListedProject>,
    pub commands: Vec<String>,
    /// What was used up with the provider of the conversation, where it is known.
    pub usage: Option<U>,
    pub providers: P,
    pub workers: W,
    /// Whether recordings are transcribed for the conversation, where it can be told.
    pub dictation: Option<bool>,
    /// The scheduled jobs, or what went wrong with them.
    pub cron: Result<CronSnapshot, String>,
}

/// What is shown.
#[derive(Debug)]
pub struct StateResponse<U, P, W> {
    pub live_revision: u64,
    pub root: String,
    pub project: Option<String>,
    pub filesystem_root: String,
    pub session: Option<Vec<(String, Json)>>,
    pub projects: Vec<ListedProject>,
    pub skills: SkillSource,
    pub commands: Vec<String>,
    pub models: Vec<ModelCatalogEntry>,
    pub catalog_error: Option<String>,
    pub dictation_available: bool,
    /// What was used up; nothing where it is hidden.
    pub usage: Option<U>,
    pub providers: P,
    pub workers: W,
    pub cron: Option<CronSnapshot>,
    pub cron_error: Option<String>,
}

/// What is shown of what is selected.
#[verifier::ext_equal]
pub struct ShownView {
    pub root: Seq<char>,
    pub project: Option<Seq<char>>,
    pub skills: SkillSource,
    pub models: Seq<EntryView>,
    pub catalog_error: Option<Seq<char>>,
    pub dictation_available: bool,
}

impl<U, P, W> StateResponse<U, P, W> {
    /// What is shown of what is selected.
    pub open spec fn selection(self) -> ShownView {
        ShownView {
            root: self.root@,
            project: message::opt_view(self.project),
            skills: self.skills,
            models: catalog::entry_views(self.models@),
            catalog_error: message::opt_view(self.catalog_error),
            dictation_available: self.dictation_available,
        }
    }
}

/// What is kept for an id, at or after the `i`th place.
pub open spec fn kept<T>(list: Seq<(u128, T)>, id: Option<u128>, i: int) -> Option<T>
    decreases list.len() - i,
{
    if i >= list.len() || id is None {
        None
    } else if list[i].0 == id->0 {
        Some(list[i].1)
    } else {
        kept(list, id, i + 1)
    }
}

/// Takes what is kept for an id.
fn take_kept<T>(list: Vec<(u128, T)>, id: Option<u128>) -> (r: Option<T>)
    ensures
        r == kept(list@, id, 0),
{
    let ghost all = list@;
    let mut rest = list;
    let wanted = match id {
        Some(wanted) => wanted,
        None => {
            return None;
        },
    };
    let mut i: usize = 0;
    while i < rest.len()
        invariant
            i <= rest@.len(),
            rest@ == all,
            all == list@,
            id == Some(wanted),
            kept(all, id, 0) == kept(all, id, i as int),
        decreases rest@.len() - i,
    {
        if rest[i].0 == wanted {
            let found = rest.remove(i);
            assert(found == all[i as int]);
            return Some(found.1);
        }
        i += 1;
    }
    None
}

/// Where a person is: in the project of the conversation, where one is open, and else in that of the
/// workspace.
pub open spec fn root_of(workspace: ServerWorkspace, conversation: Option<ConversationInfo>) -> Seq<
    char,
> {
    match conversation {
        Some(c) => c.project_root@,
        None => workspace.root@,
    }
}

/// Where a person is.
pub fn shown_root(workspace: &ServerWorkspace, conversation: &Option<ConversationInfo>) -> (r: String)
    ensures
        r@ == root_of(*workspace, *conversation),
{
    match conversation {
        Some(c) => c.project_root.clone(),
        None => workspace.root.clone(),
    }
}

/// What is shown of what is selected: that of the conversation, where one is open, and else that of
/// the workspace. `dictation` tells whether recordings are transcribed for the conversation, where it
/// can be told.
pub open spec fn shown(
    workspace: ServerWorkspace,
    conversation: Option<ConversationInfo>,
    known: Option<CatalogState>,
    dictation: Option<bool>,
) -> ShownView {
    let root = root_of(workspace, conversation);
    ShownView {
        root,
        project: match conversation {
            Some(c) if c.scope == SessionScope::Project => Some(c.project_root@),
            _ => if workspace.project_selected {
                Some(root)
            } else {
                None
            },
        },
        skills: match conversation {
            Some(_) => SkillSource::Conversation,
            None => if workspace.project_selected {
                SkillSource::Project
            } else {
                SkillSource::Global
            },
        },
        models: match (known, conversation) {
            (Some(k), _) => catalog::entry_views(k.models@),
            (None, Some(c)) => catalog::entry_views(c.model_catalog@),
            (None, None) => Seq::empty(),
        },
        catalog_error: match known {
            Some(k) => message::opt_view(k.error),
            None => None,
        },
        dictation_available: conversation is Some && dictation == Some(true),
    }
}

/// What is shown of the session that is asked for, or else of the selected one. `open` are the open
/// conversations and `catalogs` what is known of models, each with the id of its session. Scheduled
/// jobs that cannot be shown leave all else as it is.
pub fn snapshot_for<U, P, W>(
    workspace: &ServerWorkspace,
    requested: Option<u128>,
    open: Vec<(u128, ConversationInfo)>,
    catalogs: Vec<(u128, CatalogState)>,
    around: Surroundings<U, P, W>,
) -> (r: StateResponse<U, P, W>)
    ensures
        ({
            let id = api::meant(requested, workspace.selected_session);
            let conversation = kept(open@, id, 0);
            &&& r.selection() == shown(
                *workspace,
                conversation,
                kept(catalogs@, id, 0),
                around.dictation,
            )
            &&& r.session == (match conversation {
                Some(c) => Some(c.session),
                None => None,
            })
            &&& r.usage == (if conversation is Some {
                around.usage
            } else {
                None
            })
        }),
        r.live_revision == around.live_revision,
        r.filesystem_root == around.filesystem_root,
        r.projects == around.projects,
        r.commands == around.commands,
        r.providers == around.providers,
        r.workers == around.workers,
        r.cron is Some == around.cron is Ok,
        match around.cron {
            Ok(c) => r.cron == Some(c) && r.cron_error is None,
            Err(e) => r.cron is None && r.cron_error == Some(e),
        },
{
    let id = api::meant_session(requested, workspace.selected_session);
    let conversation = take_kept(open, id);
    let known = take_kept(catalogs, id);
    let root = shown_root(workspace, &conversation);
    let in_project = match &conversation {
        Some(c) => c.scope == SessionScope::Project,
        None => false,
    };
    let project = if in_project || workspace.project_selected {
        Some(root.clone())
    } else {
        None
    };
    let skills = match &conversation {
        Some(_) => SkillSource::Conversation,
        None => if workspace.project_selected {
            SkillSource::Project
        } else {
            SkillSource::Global
        },
    };
    let dictation_available = match &conversation {
        Some(_) => match around.dictation {
            Some(available) => available,
            None => false,
        },
        None => false,
    };
    let usage = match &conversation {
        Some(_) => around.usage,
        None => None,
    };
    let (cron, cron_error) = match around.cron {
        Ok(c) => (Some(c), None),
        Err(e) => (None, Some(e)),
    };
    let ghost all = shown(*workspace, conversation, known, around.dictation);
    let (own_models, session) = match conversation {
        Some(c) => (c.model_catalog, Some(c.session)),
        None => (Vec::new(), None),
    };
    let (models, catalog_error) = match known {
        Some(k) => (k.models, k.error),
        None => (own_models, None),
    };
    assert(catalog::entry_views(models@) == all.models);
    StateResponse {
        live_revision: around.live_revision,
        root,
        project,
        filesystem_root: around.filesystem_root,
        session,
        projects: around.projects,
        skills,
        commands: around.commands,
        models,
        catalog_error,
        dictation_available,
        usage,
        providers: around.providers,
        workers: around.workers,
        cron,
        cron_error,
    }
}

// ---------------------------------------------------------------------------
// Laws
/// Deleting a session changes what is selected only where it was selected; then what moves up to its
/// place is, or the last where it was the last.
pub proof fn the_next_session_is_selected(
    selected: Option<u128>,
    listed: Seq<u128>,
    i: int,
    remaining: Seq<u128>,
)
    requires
        0 <= i < listed.len(),
        forall|j: int| 0 <= j < i ==> listed[j] != listed[i],
    ensures
        ({
            let r = replaced_by(selected, listed[i], listed, remaining);
            &&& r == Replacement::Unchanged <==> selected != Some(listed[i])
            &&& selected == Some(listed[i]) && i < remaining.len() ==> r == Replacement::Session(
                remaining[i],
            )
            &&& selected == Some(listed[i]) && 0 < remaining.len() <= i ==> r
                == Replacement::Session(remaining[remaining.len() - 1])
            &&& selected == Some(listed[i]) && remaining.len() == 0 ==> r == Replacement::Nothing
        }),
{
    lemma_id_at(listed, listed[i], 0, i);
    lemma_has_id(listed, listed[i], 0);
}

proof fn lemma_has_id(ids: Seq<u128>, id: u128, i: int)
    requires
        0 <= i <= ids.len(),
    ensures
        id_at(ids, id, i) < ids.len() ==> ids[id_at(ids, id, i)] == id && i <= id_at(ids, id, i),
    decreases ids.len() - i,
{
    if i < ids.len() && ids[i] != id {
        lemma_has_id(ids, id, i + 1);
    }
}

/// What is kept for an id is what stands first beside it, and nothing where it stands nowhere.
pub proof fn what_is_kept_stands_beside_its_id<T>(list: Seq<(u128, T)>, id: u128)
    ensures
        kept(list, None, 0) is None,
        kept(list, Some(id), 0) is None <==> forall|i: int|
            0 <= i < list.len() ==> (#[trigger] list[i]).0 != id,
        kept(list, Some(id), 0) matches Some(t) ==> exists|i: int|
            0 <= i < list.len() && (#[trigger] list[i]) == (id, t) && forall|j: int|
                0 <= j < i ==> (#[trigger] list[j]).0 != id,
{
    lemma_kept(list, id, 0);
}

proof fn lemma_kept<T>(list: Seq<(u128, T)>, id: u128, from: int)
    requires
        0 <= from <= list.len(),
        forall|j: int| 0 <= j < from ==> (#[trigger] list[j]).0 != id,
    ensures
        kept(list, Some(id), from) is None <==> forall|i: int|
            0 <= i < list.len() ==> (#[trigger] list[i]).0 != id,
        kept(list, Some(id), from) matches Some(t) ==> exists|i: int|
            0 <= i < list.len() && (#[trigger] list[i]) == (id, t) && forall|j: int|
                0 <= j < i ==> (#[trigger] list[j]).0 != id,
    decreases list.len() - from,
{
    if from < list.len() {
        if list[from].0 != id {
            lemma_kept(list, id, from + 1);
        } else {
            assert(list[from] == (id, list[from].1));
        }
    }
}

/// Where a conversation is open, it is shown: its root, its project, its skills and its models; else
/// the workspace is, with no models.
pub proof fn the_open_conversation_is_shown(
    workspace: ServerWorkspace,
    c: ConversationInfo,
    dictation: Option<bool>,
)
    ensures
        ({
            let s = shown(workspace, Some(c), None, dictation);
            &&& s.root == c.project_root@
            &&& c.scope == SessionScope::Project ==> s.project == Some(c.project_root@)
            &&& s.skills == SkillSource::Conversation
            &&& s.models == catalog::entry_views(c.model_catalog@)
            &&& s.catalog_error is None
            &&& s.dictation_available <==> dictation == Some(true)
        }),
        ({
            let s = shown(workspace, None, None, dictation);
            &&& s.root == workspace.root@
            &&& s.project == (if workspace.project_selected {
                Some(workspace.root@)
            } else {
                None
            })
            &&& s.skills == SkillSource::Project <==> workspace.project_selected
            &&& s.skills == SkillSource::Global <==> !workspace.project_selected
            &&& s.models.len() == 0
            &&& !s.dictation_available
        }),
{
}

/// What is known of the models is shown before what a conversation began with.
pub proof fn known_models_are_shown(
    workspace: ServerWorkspace,
    conversation: Option<ConversationInfo>,
    known: CatalogState,
    dictation: Option<bool>,
)
    ensures
        shown(workspace, conversation, Some(known), dictation).models == catalog::entry_views(
            known.models@,
        ),
        shown(workspace, conversation, Some(known), dictation).catalog_error == message::opt_view(
            known.error,
        ),
{
}

/// Resuming a session leaves another one that is selected, and never the one that is resumed.
pub proof fn resuming_leaves_another_session(
    selected: Option<u128>,
    target: u128,
    open: Vec<u128>,
    r: ResumePlan,
)
    requires
        call_ensures(resume_session, (selected, target, &open), r),
    ensures
        r.leaves != Some(target),
        r.leaves is Some ==> r.leaves == selected,
        selected is Some && selected != Some(target) ==> r.leaves == selected,
        r.is_open <==> open@.contains(target),
{
}

/// A session with running terminals is deleted only where they may be ended, and then they are.
pub proof fn running_terminals_are_ended_first(
    running: Option<usize>,
    stop: bool,
    r: Result<bool, ApiError>,
)
    requires
        call_ensures(check_deletion, (running, stop), r),
    ensures
        r is Err <==> (running matches Some(n) && n > 0) && !stop,
        r == Ok::<bool, ApiError>(true) <==> (running matches Some(n) && n > 0) && stop,
        r matches Err(e) ==> e.status == Status::Conflict,
{
}

/// A session that is opened is selected with its project; opening a project or leaving a session
/// selects none.
pub proof fn what_is_opened_is_selected(
    w: &mut ServerWorkspace,
    root: String,
    scope: SessionScope,
    id: u128,
)
    requires
        call_ensures(ServerWorkspace::install_conversation, (w, root, scope, id), ()),
    ensures
        final(w).selected_session == Some(id),
        final(w).root == root,
        final(w).project_selected <==> scope == SessionScope::Project,
{
}

} // verus!
