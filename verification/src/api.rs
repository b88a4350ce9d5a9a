//! What the server decides of requests, and how it refuses them.
use crate::catalog;
use crate::catalog::{EntryView, ModelCatalogEntry, ModelSelection};
use crate::events::{AgentActivity, AgentEvent};
use crate::ids;
use crate::json;
use crate::json::{Json, JsonView};
use crate::merge;
use crate::message;
use crate::message::Message;
use crate::payload;
use crate::text;
use vstd::prelude::*;
use vstd::string::*;

verus! {

// ---------------------------------------------------------------------------
// Refusals

/// Why a request is refused.
#[derive(Clone, Copy, Debug, PartialEq, Eq, Structural)]
pub enum Status {
    BadRequest,
    Unauthorized,
    Forbidden,
    NotFound,
    Conflict,
    Gone,
    PayloadTooLarge,
    InternalServerError,
    ServiceUnavailable,
}

impl Status {
    /// The number that HTTP gives the refusal.
    pub open spec fn number(self) -> u16 {
        match self {
            Status::BadRequest => 400,
            Status::Unauthorized => 401,
            Status::Forbidden => 403,
            Status::NotFound => 404,
            Status::Conflict => 409,
            Status::Gone => 410,
            Status::PayloadTooLarge => 413,
            Status::InternalServerError => 500,
            Status::ServiceUnavailable => 503,
        }
    }

    /// The number that HTTP gives the refusal.
    pub fn code(self) -> (n: u16)
        ensures
            n == self.number(),
    {
        match self {
            Status::BadRequest => 400,
            Status::Unauthorized => 401,
            Status::Forbidden => 403,
            Status::NotFound => 404,
            Status::Conflict => 409,
            Status::Gone => 410,
            Status::PayloadTooLarge => 413,
            Status::InternalServerError => 500,
            Status::ServiceUnavailable => 503,
        }
    }
}

/// A refusal.
#[derive(Debug)]
pub struct ApiError {
    pub status: Status,
    pub error: String,
}

/// A refusal.
pub struct Refusal {
    pub status: Status,
    pub error: Seq<char>,
}

impl View for ApiError {
    type V = Refusal;

    open spec fn view(&self) -> Refusal {
        Refusal { status: self.status, error: self.error@ }
    }
}

/// What a refused request is answered.
pub open spec fn refusal_fields(error: Seq<char>) -> payload::Fields {
    seq![("error"@, JsonView::Text(error))]
}

impl ApiError {
    /// A refusal with what a person is told.
    pub fn message(status: Status, message: &str) -> (e: ApiError)
        ensures
            e@ == (Refusal { status, error: message@ }),
    {
        ApiError { status, error: message.to_owned() }
    }

    /// A refusal for something that went wrong in the server.
    pub fn internal(error: String) -> (e: ApiError)
        ensures
            e@ == (Refusal { status: Status::InternalServerError, error: error@ }),
    {
        ApiError { status: Status::InternalServerError, error }
    }

    /// What a refused request is answered: the number of the refusal, and an object that says why.
    pub fn response(&self) -> (r: (u16, Json))
        ensures
            r.0 == self@.status.number(),
            r.1@ == JsonView::Object(refusal_fields(self@.error)),
    {
        let fields = json::with_field(json::no_fields(), "error", json::text_value(&self.error));
        assert(json::field_views(fields@) == refusal_fields(self@.error));
        (self.status.code(), Json::Object(fields))
    }
}

/// A refusal of a request that cannot be understood.
pub open spec fn bad(error: Seq<char>) -> Refusal {
    Refusal { status: Status::BadRequest, error }
}

// ---------------------------------------------------------------------------
// The session of a request

/// What a request wants of a session.
#[derive(Clone, Copy, Debug, PartialEq, Eq, Structural)]
pub enum Purpose {
    RequestUsage,
    ResetUsage,
    RequestCompletions,
    SendMessage,
    ChangeModel,
    ChangeProvider,
    BrowseBranches,
    SelectBranch,
    CreateGoal,
    EditGoal,
    ActivateGoal,
    PauseGoal,
    DeleteGoal,
    Dictate,
    ListProcesses,
    ViewProcess,
    StopProcess,
}

impl Purpose {
    /// What cannot be done without a session.
    pub open spec fn text(self) -> Seq<char> {
        match self {
            Purpose::RequestUsage => "requesting usage"@,
            Purpose::ResetUsage => "resetting usage"@,
            Purpose::RequestCompletions => "requesting completions"@,
            Purpose::SendMessage => "sending a message"@,
            Purpose::ChangeModel => "changing the model"@,
            Purpose::ChangeProvider => "changing the provider"@,
            Purpose::BrowseBranches => "browsing its branches"@,
            Purpose::SelectBranch => "selecting a conversation branch"@,
            Purpose::CreateGoal => "creating a goal"@,
            Purpose::EditGoal => "editing a goal"@,
            Purpose::ActivateGoal => "activating a goal"@,
            Purpose::PauseGoal => "pausing a goal"@,
            Purpose::DeleteGoal => "deleting a goal"@,
            Purpose::Dictate => "using voice dictation"@,
            Purpose::ListProcesses => "listing processes"@,
            Purpose::ViewProcess => "viewing process output"@,
            Purpose::StopProcess => "stopping a process"@,
        }
    }

    /// How a request without a session is refused.
    pub open spec fn refused_as(self) -> Status {
        match self {
            Purpose::Dictate
            | Purpose::ListProcesses
            | Purpose::ViewProcess
            | Purpose::StopProcess => Status::InternalServerError,
            _ => Status::Conflict,
        }
    }

    fn name(self) -> (s: &'static str)
        ensures
            s@ == self.text(),
    {
        match self {
            Purpose::RequestUsage => "requesting usage",
            Purpose::ResetUsage => "resetting usage",
            Purpose::RequestCompletions => "requesting completions",
            Purpose::SendMessage => "sending a message",
            Purpose::ChangeModel => "changing the model",
            Purpose::ChangeProvider => "changing the provider",
            Purpose::BrowseBranches => "browsing its branches",
            Purpose::SelectBranch => "selecting a conversation branch",
            Purpose::CreateGoal => "creating a goal",
            Purpose::EditGoal => "editing a goal",
            Purpose::ActivateGoal => "activating a goal",
            Purpose::PauseGoal => "pausing a goal",
            Purpose::DeleteGoal => "deleting a goal",
            Purpose::Dictate => "using voice dictation",
            Purpose::ListProcesses => "listing processes",
            Purpose::ViewProcess => "viewing process output",
            Purpose::StopProcess => "stopping a process",
        }
    }

    fn refusal(self) -> (s: Status)
        ensures
            s == self.refused_as(),
    {
        match self {
            Purpose::Dictate
            | Purpose::ListProcesses
            | Purpose::ViewProcess
            | Purpose::StopProcess => Status::InternalServerError,
            _ => Status::Conflict,
        }
    }
}

/// The session that a request is about: the one that it names, else the one that is selected.
pub open spec fn meant(requested: Option<u128>, selected: Option<u128>) -> Option<u128> {
    match requested {
        Some(id) => Some(id),
        None => selected,
    }
}

/// The session that a request is about.
pub fn meant_session(requested: Option<u128>, selected: Option<u128>) -> (r: Option<u128>)
    ensures
        r == meant(requested, selected),
{
    match requested {
        Some(id) => Some(id),
        None => selected,
    }
}

/// Whether an id is in a list.
pub fn has_id(ids: &Vec<u128>, id: u128) -> (r: bool)
    ensures
        r == ids@.contains(id),
{
    let mut i: usize = 0;
    while i < ids.len()
        invariant
            i <= ids@.len(),
            forall|j: int| 0 <= j < i ==> ids@[j] != id,
        decreases ids@.len() - i,
    {
        if ids[i] == id {
            assert(ids@[i as int] == id);
            return true;
        }
        i += 1;
    }
    false
}

/// The open session that a request is about, or how the request is refused.
pub open spec fn open_session(
    purpose: Purpose,
    requested: Option<u128>,
    selected: Option<u128>,
    open: Seq<u128>,
) -> Result<u128, Refusal> {
    match meant(requested, selected) {
        Some(id) if open.contains(id) => Ok(id),
        _ => Err(
            Refusal {
                status: purpose.refused_as(),
                error: "create or resume a session before "@ + purpose.text(),
            },
        ),
    }
}

/// The session that a request is about, where it is open.
pub fn selected_conversation(
    purpose: Purpose,
    requested: Option<u128>,
    selected: Option<u128>,
    open: &Vec<u128>,
) -> (r: Result<u128, ApiError>)
    ensures
        match open_session(purpose, requested, selected, open@) {
            Ok(id) => r == Ok::<u128, ApiError>(id),
            Err(f) => r matches Err(e) && e@ == f,
        },
{
    if let Some(id) = meant_session(requested, selected) {
        if has_id(open, id) {
            return Ok(id);
        }
    }
    Err(
        ApiError {
            status: purpose.refusal(),
            error: text::cat2("create or resume a session before ", purpose.name()),
        },
    )
}

/// The session to cancel: the one that a request is about, where it is open.
pub fn cancel_chat(requested: Option<u128>, selected: Option<u128>, open: &Vec<u128>) -> (r: Option<
    u128,
>)
    ensures
        r == (match meant(requested, selected) {
            Some(id) if open@.contains(id) => Some(id),
            _ => None::<u128>,
        }),
{
    if let Some(id) = meant_session(requested, selected) {
        if has_id(open, id) {
            return Some(id);
        }
    }
    None
}

// ---------------------------------------------------------------------------
// Goals

/// How many characters a goal may have.
pub const MAX_GOAL_CHARS: usize = 4_000;

/// The goal that a request is about.
pub fn required_goal_id(id: Option<u128>) -> (r: Result<u128, ApiError>)
    ensures
        match id {
            Some(id) => r == Ok::<u128, ApiError>(id),
            None => r matches Err(e) && e@ == bad("goal id is required"@),
        },
{
    match id {
        Some(id) => Ok(id),
        None => Err(ApiError::message(Status::BadRequest, "goal id is required")),
    }
}

/// What a goal is, as a request says it.
pub open spec fn objective_of(objective: Option<Seq<char>>) -> Result<Seq<char>, Refusal> {
    let said = match objective {
        Some(s) => text::trimmed(s),
        None => Seq::empty(),
    };
    if said.len() == 0 {
        Err(bad("goal objective is required"@))
    } else if said.len() > MAX_GOAL_CHARS {
        Err(bad("goal objective cannot exceed 4,000 characters"@))
    } else {
        Ok(said)
    }
}

/// What a goal is, as a request says it.
pub fn required_goal_objective(objective: Option<&str>) -> (r: Result<String, ApiError>)
    ensures
        match objective_of(payload::str_view(objective)) {
            Ok(s) => r matches Ok(t) && t@ == s,
            Err(f) => r matches Err(e) && e@ == f,
        },
{
    let said = match objective {
        Some(s) => text::trim(s),
        None => {
            return Err(ApiError::message(Status::BadRequest, "goal objective is required"));
        },
    };
    let length: usize = said.unicode_len();
    if length == 0 {
        return Err(ApiError::message(Status::BadRequest, "goal objective is required"));
    }
    if length > MAX_GOAL_CHARS {
        return Err(
            ApiError::message(
                Status::BadRequest,
                "goal objective cannot exceed 4,000 characters",
            ),
        );
    }
    Ok(said.to_owned())
}

/// Refuses a request on a goal that there is not.
pub fn check_goal(found: bool) -> (r: Result<(), ApiError>)
    ensures
        found ==> r is Ok,
        !found ==> (r matches Err(e) && e@ == (Refusal {
            status: Status::NotFound,
            error: "goal not found"@,
        })),
{
    if found {
        Ok(())
    } else {
        Err(ApiError::message(Status::NotFound, "goal not found"))
    }
}

// ---------------------------------------------------------------------------
// Messages

/// What a turn begins with.
#[derive(Debug)]
pub enum TurnPlan {
    /// A message that was sent before is changed.
    Edit { node_id: u128, prompt: String },
    /// The goal is pursued.
    Continue,
    /// A message is sent.
    Send(String),
}

/// What a turn begins with.
pub enum TurnPlanView {
    Edit { node_id: u128, prompt: Seq<char> },
    Continue,
    Send(Seq<char>),
}

impl View for TurnPlan {
    type V = TurnPlanView;

    open spec fn view(&self) -> TurnPlanView {
        match *self {
            TurnPlan::Edit { node_id, prompt } => TurnPlanView::Edit { node_id, prompt: prompt@ },
            TurnPlan::Continue => TurnPlanView::Continue,
            TurnPlan::Send(prompt) => TurnPlanView::Send(prompt@),
        }
    }
}

/// What a turn begins with, by the request for it.
pub open spec fn turn_of(prompt: Seq<char>, continuation: bool, edit_node_id: Option<u128>) -> Result<
    TurnPlanView,
    Refusal,
> {
    let said = text::trimmed(prompt);
    if !continuation && said.len() == 0 {
        Err(bad("prompt is empty"@))
    } else if continuation && edit_node_id is Some {
        Err(bad("goal continuation cannot edit a message"@))
    } else {
        match edit_node_id {
            Some(node_id) => Ok(TurnPlanView::Edit { node_id, prompt: said }),
            None => if continuation {
                Ok(TurnPlanView::Continue)
            } else {
                Ok(TurnPlanView::Send(said))
            },
        }
    }
}

/// What a turn begins with, by the request for it.
pub fn plan_turn(prompt: &str, continuation: bool, edit_node_id: Option<u128>) -> (r: Result<
    TurnPlan,
    ApiError,
>)
    ensures
        match turn_of(prompt@, continuation, edit_node_id) {
            Ok(p) => r matches Ok(q) && q@ == p,
            Err(f) => r matches Err(e) && e@ == f,
        },
{
    let said = text::trim(prompt);
    if !continuation && said.unicode_len() == 0 {
        return Err(ApiError::message(Status::BadRequest, "prompt is empty"));
    }
    match edit_node_id {
        Some(node_id) => if continuation {
            Err(ApiError::message(Status::BadRequest, "goal continuation cannot edit a message"))
        } else {
            Ok(TurnPlan::Edit { node_id, prompt: said.to_owned() })
        },
        None => if continuation {
            Ok(TurnPlan::Continue)
        } else {
            Ok(TurnPlan::Send(said.to_owned()))
        },
    }
}

/// What is told last of a turn.
#[derive(Debug)]
pub enum TurnEnd {
    /// It is done: the state follows, and usage is asked for anew.
    Done,
    /// It was cancelled: the state follows.
    Cancelled,
    /// It went wrong.
    Error(String),
}

/// What is told last of a turn, by what its task handed back. A turn may have been cancelled.
pub fn turn_end(
    result: Result<Result<Result<(), String>, String>, String>,
    cancelled: bool,
) -> (r: TurnEnd)
    ensures
        match result {
            Ok(Ok(Ok(()))) => r is Done,
            Ok(Ok(Err(e))) | Ok(Err(e)) => if cancelled {
                r is Cancelled
            } else {
                r == TurnEnd::Error(e)
            },
            Err(e) => if cancelled {
                r is Cancelled
            } else {
                r matches TurnEnd::Error(m) && m@ == "conversation turn task failed: "@ + e@
            },
        },
{
    let error = match result {
        Ok(Ok(Ok(()))) => {
            return TurnEnd::Done;
        },
        Ok(Ok(Err(e))) => e,
        Ok(Err(e)) => e,
        Err(e) => text::cat2("conversation turn task failed: ", &e),
    };
    if cancelled {
        TurnEnd::Cancelled
    } else {
        TurnEnd::Error(error)
    }
}

/// What is told of a turn while it runs.
#[derive(Debug)]
pub enum ChatStreamMessage {
    UserMessage { message: Message },
    AssistantMessage { message: Message },
    AssistantTextDelta { delta: String, start: bool, sequence: u64, created_at: i128 },
    AssistantStreamReset,
    AssistantMessageCompleted { message: Message },
    Activity { activity: AgentActivity },
}

impl ChatStreamMessage {
    /// The word by which a listener tells what it is told.
    pub open spec fn word(self) -> Seq<char> {
        match self {
            ChatStreamMessage::UserMessage { .. } => "user_message"@,
            ChatStreamMessage::AssistantMessage { .. } => "assistant_message"@,
            ChatStreamMessage::AssistantTextDelta { .. } => "assistant_text_delta"@,
            ChatStreamMessage::AssistantStreamReset => "assistant_stream_reset"@,
            ChatStreamMessage::AssistantMessageCompleted { .. } => "assistant_message_completed"@,
            ChatStreamMessage::Activity { .. } => "activity"@,
        }
    }

    /// The word by which a listener tells what it is told.
    pub fn tag(&self) -> (s: &'static str)
        ensures
            s@ == self.word(),
    {
        match self {
            ChatStreamMessage::UserMessage { .. } => "user_message",
            ChatStreamMessage::AssistantMessage { .. } => "assistant_message",
            ChatStreamMessage::AssistantTextDelta { .. } => "assistant_text_delta",
            ChatStreamMessage::AssistantStreamReset => "assistant_stream_reset",
            ChatStreamMessage::AssistantMessageCompleted { .. } => "assistant_message_completed",
            ChatStreamMessage::Activity { .. } => "activity",
        }
    }
}

/// What is told of something that happens in a turn.
pub fn chat_stream_event(event: AgentEvent) -> (r: ChatStreamMessage)
    ensures
        r == (match event {
            AgentEvent::UserMessage(message) => ChatStreamMessage::UserMessage { message },
            AgentEvent::AssistantMessage(message) => ChatStreamMessage::AssistantMessage {
                message,
            },
            AgentEvent::AssistantTextDelta { delta, start, sequence, created_at } => {
                ChatStreamMessage::AssistantTextDelta { delta, start, sequence, created_at }
            },
            AgentEvent::AssistantStreamReset => ChatStreamMessage::AssistantStreamReset,
            AgentEvent::AssistantMessageCompleted(message) => {
                ChatStreamMessage::AssistantMessageCompleted { message }
            },
            AgentEvent::Activity(activity) => ChatStreamMessage::Activity { activity },
        }),
{
    match event {
        AgentEvent::UserMessage(message) => ChatStreamMessage::UserMessage { message },
        AgentEvent::AssistantMessage(message) => ChatStreamMessage::AssistantMessage { message },
        AgentEvent::AssistantTextDelta { delta, start, sequence, created_at } => {
            ChatStreamMessage::AssistantTextDelta { delta, start, sequence, created_at }
        },
        AgentEvent::AssistantStreamReset => ChatStreamMessage::AssistantStreamReset,
        AgentEvent::AssistantMessageCompleted(message) => {
            ChatStreamMessage::AssistantMessageCompleted { message }
        },
        AgentEvent::Activity(activity) => ChatStreamMessage::Activity { activity },
    }
}

// ---------------------------------------------------------------------------
// Models

/// How a choice of a model is refused, where it is. Any model may be chosen where no catalog is
/// known.
pub open spec fn model_refusal(
    models: Seq<EntryView>,
    model: Seq<char>,
    reasoning_effort: Option<Seq<char>>,
    service_tier: Option<Seq<char>>,
) -> Option<Refusal> {
    let at = catalog::entry_at(models, model, 0);
    if models.len() == 0 {
        None
    } else if at >= models.len() {
        Some(bad("model is not in the provider catalog"@))
    } else if reasoning_effort is Some && !merge::has_option(
        models[at].reasoning_levels,
        reasoning_effort->0,
    ) {
        Some(bad("reasoning effort is not supported by this model"@))
    } else if service_tier is Some && !merge::has_option(
        models[at].service_tiers,
        service_tier->0,
    ) {
        Some(bad("service tier is not supported by this model"@))
    } else {
        None
    }
}

/// Takes the choice of a model, where it can be made.
pub fn set_model(models: &Vec<ModelCatalogEntry>, selection: ModelSelection) -> (r: Result<
    ModelSelection,
    ApiError,
>)
    ensures
        match model_refusal(
            catalog::entry_views(models@),
            selection.model@,
            message::opt_view(selection.reasoning_effort),
            message::opt_view(selection.service_tier),
        ) {
            None => r == Ok::<ModelSelection, ApiError>(selection),
            Some(f) => r matches Err(e) && e@ == f,
        },
{
    let at: usize = catalog::find_entry(models, &selection.model);
    if at < models.len() {
        let model = &models[at];
        assert(catalog::entry_views(models@)[at as int] == model@);
        if let Some(effort) = &selection.reasoning_effort {
            if !model.supports_reasoning(effort) {
                return Err(
                    ApiError::message(
                        Status::BadRequest,
                        "reasoning effort is not supported by this model",
                    ),
                );
            }
        }
        if let Some(tier) = &selection.service_tier {
            if !model.supports_tier(tier) {
                return Err(
                    ApiError::message(
                        Status::BadRequest,
                        "service tier is not supported by this model",
                    ),
                );
            }
        }
    } else if models.len() > 0 {
        return Err(ApiError::message(Status::BadRequest, "model is not in the provider catalog"));
    }
    Ok(selection)
}

// ---------------------------------------------------------------------------
// Sessions

/// Where a new session is made: in a project, or in none.
pub fn new_session_project(project: Option<String>, no_project: bool) -> (r: Result<
    Option<String>,
    ApiError,
>)
    ensures
        match (project, no_project) {
            (Some(_), true) => r matches Err(e) && e@ == bad(
                "project and no_project cannot both be set"@,
            ),
            (None, true) => r == Ok::<Option<String>, ApiError>(None),
            (Some(p), false) => r == Ok::<Option<String>, ApiError>(Some(p)),
            (None, false) => r matches Err(e) && e@ == bad("project is required"@),
        },
{
    match project {
        Some(p) => if no_project {
            Err(ApiError::message(Status::BadRequest, "project and no_project cannot both be set"))
        } else {
            Ok(Some(p))
        },
        None => if no_project {
            Ok(None)
        } else {
            Err(ApiError::message(Status::BadRequest, "project is required"))
        },
    }
}

/// What is changed of how a session is listed.
#[derive(Debug)]
pub enum SessionMetadataUpdate {
    Rename(String),
    SetPinned(bool),
    SetArchived(bool),
}

/// The one thing that a request changes of how a session is listed.
pub fn metadata_update(title: Option<String>, pinned: Option<bool>, archived: Option<bool>) -> (r:
    Result<SessionMetadataUpdate, ApiError>)
    ensures
        match (title, pinned, archived) {
            (Some(t), None, None) => r == Ok::<SessionMetadataUpdate, ApiError>(
                SessionMetadataUpdate::Rename(t),
            ),
            (None, Some(p), None) => r == Ok::<SessionMetadataUpdate, ApiError>(
                SessionMetadataUpdate::SetPinned(p),
            ),
            (None, None, Some(a)) => r == Ok::<SessionMetadataUpdate, ApiError>(
                SessionMetadataUpdate::SetArchived(a),
            ),
            _ => r matches Err(e) && e@ == bad(
                "provide exactly one of title, pinned, or archived"@,
            ),
        },
{
    match (title, pinned, archived) {
        (Some(t), None, None) => Ok(SessionMetadataUpdate::Rename(t)),
        (None, Some(p), None) => Ok(SessionMetadataUpdate::SetPinned(p)),
        (None, None, Some(a)) => Ok(SessionMetadataUpdate::SetArchived(a)),
        _ => Err(
            ApiError::message(
                Status::BadRequest,
                "provide exactly one of title, pinned, or archived",
            ),
        ),
    }
}

/// Refuses to browse branches while a turn runs.
pub fn check_browsing(running: bool) -> (r: Result<(), ApiError>)
    ensures
        !running ==> r is Ok,
        running ==> (r matches Err(e) && e@ == (Refusal {
            status: Status::Conflict,
            error: "wait for the active turn before browsing conversation branches"@,
        })),
{
    if running {
        Err(
            ApiError::message(
                Status::Conflict,
                "wait for the active turn before browsing conversation branches",
            ),
        )
    } else {
        Ok(())
    }
}

/// Refuses the deletion of a job that there is not.
pub fn check_deleted_job(deleted: bool) -> (r: Result<(), ApiError>)
    ensures
        deleted ==> r is Ok,
        !deleted ==> (r matches Err(e) && e@ == (Refusal {
            status: Status::NotFound,
            error: "cron job does not exist"@,
        })),
{
    if deleted {
        Ok(())
    } else {
        Err(ApiError::message(Status::NotFound, "cron job does not exist"))
    }
}

// ---------------------------------------------------------------------------
// Recordings

/// The session that a recording is for, as its header names it.
pub open spec fn dictated(empty: bool, header: Option<Seq<char>>) -> Result<Option<u128>, Refusal> {
    if empty {
        Err(bad("recording is empty"@))
    } else {
        match header {
            None => Ok(None),
            Some(h) => match ids::parsed_id(h) {
                Some(id) => Ok(Some(id)),
                None => Err(bad("invalid session id"@)),
            },
        }
    }
}

/// The session that a recording is for, by what is read of the header that names it.
pub fn dictation_session_with(header: Option<Option<u128>>) -> (r: Result<Option<u128>, ApiError>)
    ensures
        match header {
            None => r == Ok::<Option<u128>, ApiError>(None),
            Some(Some(id)) => r == Ok::<Option<u128>, ApiError>(Some(id)),
            Some(None) => r matches Err(e) && e@ == bad("invalid session id"@),
        },
{
    match header {
        None => Ok(None),
        Some(Some(id)) => Ok(Some(id)),
        Some(None) => Err(ApiError::message(Status::BadRequest, "invalid session id")),
    }
}

/// The session that a recording is for; a recording without a header is for the selected one.
pub fn dictation_session(empty: bool, header: Option<&str>) -> (r: Result<Option<u128>, ApiError>)
    ensures
        match dictated(empty, payload::str_view(header)) {
            Ok(id) => r == Ok::<Option<u128>, ApiError>(id),
            Err(f) => r matches Err(e) && e@ == f,
        },
{
    if empty {
        return Err(ApiError::message(Status::BadRequest, "recording is empty"));
    }
    dictation_session_with(
        match header {
            Some(h) => Some(ids::parse_uuid(h)),
            None => None,
        },
    )
}

/// Refuses a recording that nobody transcribes.
pub fn check_dictation(available: bool) -> (r: Result<(), ApiError>)
    ensures
        available ==> r is Ok,
        !available ==> (r matches Err(e) && e@ == (Refusal {
            status: Status::Forbidden,
            error: "voice dictation requires the official OpenAI provider and valid authentication"@,
        })),
{
    if available {
        Ok(())
    } else {
        Err(
            ApiError::message(
                Status::Forbidden,
                "voice dictation requires the official OpenAI provider and valid authentication",
            ),
        )
    }
}

/// What kind of recording there is, where a request says none that could be one.
pub fn recording_type<'a>(content_type: Option<&'a str>) -> (r: &'a str)
    ensures
        r@ == (match payload::str_view(content_type) {
            Some(t) if text::begins_with(t, "audio/"@) => t,
            _ => "audio/webm"@,
        }),
{
    match content_type {
        Some(t) => if text::starts_with(t, "audio/") {
            t
        } else {
            "audio/webm"
        },
        None => "audio/webm",
    }
}

// ---------------------------------------------------------------------------
// Completions

/// What a completion replaces: the range of the menu, of the name of a file, or of a command; or
/// nothing.
pub open spec fn replaced_range(
    menu: Option<(usize, usize)>,
    file: Option<(usize, usize)>,
    command: Option<(usize, usize)>,
    cursor: usize,
) -> (usize, usize) {
    match (menu, file, command) {
        (Some(r), _, _) => r,
        (None, Some(r), _) => r,
        (None, None, Some(r)) => r,
        _ => (cursor, cursor),
    }
}

/// Whether a range of an input lies round the cursor.
pub open spec fn lies_round(range: Option<(usize, usize)>, cursor: nat, length: nat) -> bool {
    range matches Some(r) ==> r.0 <= cursor <= r.1 <= length
}

/// The text that a completion replaces, before and behind the cursor. `file` is the range of the
/// name of a file where it can be searched for, and `command` that of a command.
pub fn completed_text(
    before_cursor: &str,
    after_cursor: &str,
    menu: Option<(usize, usize)>,
    file: Option<(usize, usize)>,
    command: Option<(usize, usize)>,
) -> (r: (String, String))
    requires
        before_cursor@.len() + after_cursor@.len() <= usize::MAX,
        lies_round(menu, before_cursor@.len(), before_cursor@.len() + after_cursor@.len()),
        lies_round(file, before_cursor@.len(), before_cursor@.len() + after_cursor@.len()),
        lies_round(command, before_cursor@.len(), before_cursor@.len() + after_cursor@.len()),
    ensures
        ({
            let input = before_cursor@ + after_cursor@;
            let cursor = before_cursor@.len();
            let range = replaced_range(menu, file, command, cursor as usize);
            &&& r.0@ == input.subrange(range.0 as int, cursor as int)
            &&& r.1@ == input.subrange(cursor as int, range.1 as int)
        }),
{
    let before = text::chars_of(before_cursor);
    let after = text::chars_of(after_cursor);
    let cursor: usize = before.len();
    let (start, end) = match menu {
        Some(r) => r,
        None => match file {
            Some(r) => r,
            None => match command {
                Some(r) => r,
                None => (cursor, cursor),
            },
        },
    };
    let replace_before = text::text_of_range(&before, start, cursor);
    let replace_after = text::text_of_range(&after, 0, end - cursor);
    let ghost input = before_cursor@ + after_cursor@;
    assert(replace_before@ == input.subrange(start as int, cursor as int));
    assert(replace_after@ == input.subrange(cursor as int, end as int));
    (replace_before, replace_after)
}

/// What happens while files are searched for a completion.
#[derive(Debug)]
pub enum SearchEvent<T> {
    /// The search found something.
    Found { request_id: u64, items: T },
    /// The search is over, or there is none.
    Ended,
    /// Nobody listens any more.
    Closed,
}

/// What is done about it.
#[derive(Debug)]
pub enum SearchAction<T> {
    /// Tell what was found, and wait for more.
    Update { request_id: u64, items: T },
    /// Tell that this was all.
    Done { request_id: u64 },
    /// Say nothing.
    Leave,
}

/// What is told of a search for the completion that was asked for as `asked`.
pub fn recursive_completions<T>(asked: u64, event: SearchEvent<T>) -> (r: SearchAction<T>)
    ensures
        r == (match event {
            SearchEvent::Found { request_id, items } => SearchAction::Update { request_id, items },
            SearchEvent::Ended => SearchAction::<T>::Done { request_id: asked },
            SearchEvent::Closed => SearchAction::<T>::Leave,
        }),
{
    match event {
        SearchEvent::Found { request_id, items } => SearchAction::Update { request_id, items },
        SearchEvent::Ended => SearchAction::Done { request_id: asked },
        SearchEvent::Closed => SearchAction::Leave,
    }
}

// ---------------------------------------------------------------------------
// The editor

/// Refuses what does not come from the editor that it says it comes from.
pub fn check_extension(authenticated: bool) -> (r: Result<(), ApiError>)
    ensures
        authenticated ==> r is Ok,
        !authenticated ==> (r matches Err(e) && e@ == (Refusal {
            status: Status::Unauthorized,
            error: "invalid extension token"@,
        })),
{
    if authenticated {
        Ok(())
    } else {
        Err(ApiError::message(Status::Unauthorized, "invalid extension token"))
    }
}

/// Refuses a greeting of an editor, where it does not come from it or there is no such editor.
pub fn check_handshake(authenticated: bool, known: bool) -> (r: Result<(), ApiError>)
    ensures
        authenticated && known ==> r is Ok,
        !authenticated ==> (r matches Err(e) && e@ == (Refusal {
            status: Status::Unauthorized,
            error: "invalid extension token"@,
        })),
        authenticated && !known ==> (r matches Err(e) && e@ == (Refusal {
            status: Status::NotFound,
            error: "code-server instance not found"@,
        })),
{
    match check_extension(authenticated) {
        Ok(()) => {},
        Err(e) => {
            return Err(e);
        },
    }
    if known {
        Ok(())
    } else {
        Err(ApiError::message(Status::NotFound, "code-server instance not found"))
    }
}

// ---------------------------------------------------------------------------
// Laws
/// No two refusals have one number, and only what goes wrong in the server has one from five hundred
/// on.
pub proof fn refusals_have_their_own_numbers(a: Status, b: Status)
    ensures
        a.number() == b.number() ==> a == b,
        400 <= a.number() < 600,
        a.number() >= 500 <==> a == Status::InternalServerError || a == Status::ServiceUnavailable,
{
}

/// A refused request is answered with what a person is told.
pub proof fn a_refusal_says_why(error: Seq<char>)
    ensures
        JsonView::Object(refusal_fields(error)).text_field("error"@) == Some(error),
{
    reveal_with_fuel(json::field_position, 2);
}

/// A request is about the open session that it names, or, where it names none, about the selected one
/// if that is open; else it is refused.
pub proof fn a_request_is_about_an_open_session(
    purpose: Purpose,
    requested: Option<u128>,
    selected: Option<u128>,
    open: Seq<u128>,
    id: u128,
)
    ensures
        open_session(purpose, requested, selected, open) == Ok::<u128, Refusal>(id) <==> (requested
            == Some(id) || (requested is None && selected == Some(id))) && open.contains(id),
        open_session(purpose, requested, selected, open) matches Err(f) ==> text::finishes_with(
            f.error,
            purpose.text(),
        ) && (f.status == Status::Conflict || f.status == Status::InternalServerError),
{
    let m = "create or resume a session before "@ + purpose.text();
    assert(m.subrange(m.len() - purpose.text().len(), m.len() as int) == purpose.text());
}

/// A goal is what a request says, without the white space round it, unless that is nothing or too
/// much.
pub proof fn a_goal_is_what_is_said(said: Seq<char>)
    ensures
        ({
            let goal = text::trimmed(said);
            &&& objective_of(Some(said)) == Ok::<Seq<char>, Refusal>(goal) <==> 1 <= goal.len()
                <= 4000
            &&& (objective_of(Some(said)) matches Ok(g) ==> g == goal)
            &&& objective_of(None) is Err
            &&& (objective_of(Some(said)) matches Err(f) ==> f.status == Status::BadRequest)
        }),
{
}

/// A turn begins with what is asked for: an edit of a message, the goal, or a new message.
pub proof fn a_turn_begins_with_what_is_asked_for(prompt: Seq<char>, node_id: u128)
    ensures
        ({
            let said = text::trimmed(prompt);
            &&& said.len() > 0 ==> turn_of(prompt, false, None) == Ok::<TurnPlanView, Refusal>(
                TurnPlanView::Send(said),
            )
            &&& said.len() > 0 ==> turn_of(prompt, false, Some(node_id)) == Ok::<
                TurnPlanView,
                Refusal,
            >(TurnPlanView::Edit { node_id, prompt: said })
            &&& said.len() == 0 ==> turn_of(prompt, false, None) is Err && turn_of(
                prompt,
                false,
                Some(node_id),
            ) is Err
            &&& turn_of(prompt, true, None) == Ok::<TurnPlanView, Refusal>(TurnPlanView::Continue)
            &&& turn_of(prompt, true, Some(node_id)) is Err
        }),
{
}

proof fn lemma_entry(models: Seq<EntryView>, model: Seq<char>, from: int, i: int)
    requires
        0 <= from <= i < models.len(),
        models[i].slug == model,
        forall|j: int| 0 <= j < i ==> (#[trigger] models[j]).slug != model,
    ensures
        catalog::entry_at(models, model, from) == i,
    decreases i - from,
{
    if from < i {
        assert(models[from].slug != model);
        lemma_entry(models, model, from + 1, i);
    }
}

proof fn lemma_no_entry(models: Seq<EntryView>, model: Seq<char>, from: int)
    requires
        0 <= from <= models.len(),
        forall|j: int| 0 <= j < models.len() ==> (#[trigger] models[j]).slug != model,
    ensures
        catalog::entry_at(models, model, from) == models.len(),
    decreases models.len() - from,
{
    if from < models.len() {
        assert(models[from].slug != model);
        lemma_no_entry(models, model, from + 1);
    }
}

/// A model of the catalog can be chosen exactly with settings that it has.
pub proof fn a_model_is_chosen_with_its_settings(
    models: Seq<EntryView>,
    i: int,
    effort: Option<Seq<char>>,
    tier: Option<Seq<char>>,
)
    requires
        0 <= i < models.len(),
        forall|j: int| 0 <= j < i ==> (#[trigger] models[j]).slug != models[i].slug,
    ensures
        model_refusal(models, models[i].slug, effort, tier) is None <==> (effort matches Some(e)
            ==> exists|k: int|
            0 <= k < models[i].reasoning_levels.len() && (#[trigger] models[i].reasoning_levels[k]).id
                == e) && (tier matches Some(t) ==> exists|k: int|
            0 <= k < models[i].service_tiers.len() && (#[trigger] models[i].service_tiers[k]).id
                == t),
{
    lemma_entry(models, models[i].slug, 0, i);
}

/// A model that the catalog does not hold cannot be chosen, unless there is no catalog.
pub proof fn unknown_models_are_not_chosen(
    models: Seq<EntryView>,
    model: Seq<char>,
    effort: Option<Seq<char>>,
    tier: Option<Seq<char>>,
)
    requires
        forall|j: int| 0 <= j < models.len() ==> (#[trigger] models[j]).slug != model,
    ensures
        model_refusal(models, model, effort, tier) is None <==> models.len() == 0,
{
    lemma_no_entry(models, model, 0);
}

/// A recording is for the session that its header names, and for the selected one without a header;
/// an empty recording is for none.
pub proof fn a_recording_is_for_the_session_named(header: Seq<char>)
    ensures
        dictated(true, Some(header)) is Err,
        dictated(true, None) is Err,
        dictated(false, None) == Ok::<Option<u128>, Refusal>(None),
        ids::parsed_id(header) matches Some(id) ==> dictated(false, Some(header)) == Ok::<
            Option<u128>,
            Refusal,
        >(Some(id)),
        ids::parsed_id(header) is None ==> dictated(false, Some(header)) is Err,
{
}

/// What a completion replaces lies round the cursor: the range of the menu before that of a file, and
/// that before the one of a command.
pub proof fn what_is_replaced_lies_round_the_cursor(
    menu: Option<(usize, usize)>,
    file: Option<(usize, usize)>,
    command: Option<(usize, usize)>,
    cursor: usize,
    length: nat,
)
    requires
        cursor <= length,
        lies_round(menu, cursor as nat, length),
        lies_round(file, cursor as nat, length),
        lies_round(command, cursor as nat, length),
    ensures
        ({
            let r = replaced_range(menu, file, command, cursor);
            &&& r.0 <= cursor <= r.1 <= length
            &&& menu is Some ==> Some(r) == menu
            &&& menu is None && file is Some ==> Some(r) == file
            &&& menu is None && file is None && command is Some ==> Some(r) == command
            &&& menu is None && file is None && command is None ==> r.0 == r.1
        }),
{
}

/// A turn is done where nothing went wrong; else it was cancelled where that was asked for, and what
/// went wrong is told where it was not.
pub proof fn the_end_of_a_turn_is_told(
    result: Result<Result<Result<(), String>, String>, String>,
    cancelled: bool,
    r: TurnEnd,
)
    requires
        call_ensures(turn_end, (result, cancelled), r),
    ensures
        r is Done <==> (result matches Ok(Ok(Ok(_)))),
        r is Cancelled <==> cancelled && !(r is Done),
        r is Error <==> !cancelled && !(r is Done),
        r matches TurnEnd::Error(m) ==> match result {
            Ok(Ok(Err(e))) => m == e,
            Ok(Err(e)) => m == e,
            Err(e) => text::finishes_with(m@, e@),
            _ => false,
        },
{
    if let Err(e) = result {
        let m = "conversation turn task failed: "@ + e@;
        assert(m.subrange(m.len() - e@.len(), m.len() as int) == e@);
    }
}

/// A session is made in the project that is named, or in none where that is asked for, and never
/// otherwise.
pub proof fn a_session_is_made_where_asked(
    project: Option<String>,
    no_project: bool,
    r: Result<Option<String>, ApiError>,
)
    requires
        call_ensures(new_session_project, (project, no_project), r),
    ensures
        r is Ok <==> project is Some != no_project,
        r matches Ok(p) ==> p == project,
        r matches Err(e) ==> e.status == Status::BadRequest,
{
}

/// A request changes one thing of how a session is listed, the one that it names.
pub proof fn one_thing_is_changed(
    title: Option<String>,
    pinned: Option<bool>,
    archived: Option<bool>,
    r: Result<SessionMetadataUpdate, ApiError>,
)
    requires
        call_ensures(metadata_update, (title, pinned, archived), r),
    ensures
        r matches Ok(SessionMetadataUpdate::Rename(t)) ==> title == Some(t) && pinned is None
            && archived is None,
        r matches Ok(SessionMetadataUpdate::SetPinned(p)) ==> pinned == Some(p) && title is None
            && archived is None,
        r matches Ok(SessionMetadataUpdate::SetArchived(a)) ==> archived == Some(a) && title is None
            && pinned is None,
        r is Err <==> {
            ||| title is None && pinned is None && archived is None
            ||| title is Some && pinned is Some
            ||| title is Some && archived is Some
            ||| pinned is Some && archived is Some
        },
{
}

/// A turn is cancelled in the open session that is named, or in the selected one.
pub proof fn the_session_named_is_cancelled(
    requested: Option<u128>,
    selected: Option<u128>,
    open: Vec<u128>,
    r: Option<u128>,
    id: u128,
)
    requires
        call_ensures(cancel_chat, (requested, selected, &open), r),
    ensures
        r == Some(id) <==> (requested == Some(id) || (requested is None && selected == Some(id)))
            && open@.contains(id),
{
}

/// What happens in a turn is told as what it is.
pub proof fn what_happens_is_told(event: AgentEvent, r: ChatStreamMessage)
    requires
        call_ensures(chat_stream_event, (event,), r),
    ensures
        event matches AgentEvent::UserMessage(m) ==> r == (ChatStreamMessage::UserMessage {
            message: m,
        }),
        event matches AgentEvent::AssistantMessage(m) ==> r == (
        ChatStreamMessage::AssistantMessage { message: m }),
        event matches AgentEvent::AssistantMessageCompleted(m) ==> r == (
        ChatStreamMessage::AssistantMessageCompleted { message: m }),
        event matches AgentEvent::Activity(a) ==> r == (ChatStreamMessage::Activity {
            activity: a,
        }),
        event is AssistantStreamReset <==> r is AssistantStreamReset,
        event is AssistantTextDelta <==> r is AssistantTextDelta,
        event is AssistantTextDelta ==> r->AssistantTextDelta_delta
            == event->AssistantTextDelta_delta && r->AssistantTextDelta_start
            == event->AssistantTextDelta_start && r->AssistantTextDelta_sequence
            == event->AssistantTextDelta_sequence,
{
}

/// The text that a completion replaces lies round the cursor, in the input.
pub proof fn the_replaced_text_stands_in_the_input(
    before: &str,
    after: &str,
    menu: Option<(usize, usize)>,
    file: Option<(usize, usize)>,
    command: Option<(usize, usize)>,
    r: (String, String),
)
    requires
        call_ensures(completed_text, (before, after, menu, file, command), r),
        before@.len() + after@.len() <= usize::MAX,
        lies_round(menu, before@.len(), before@.len() + after@.len()),
        lies_round(file, before@.len(), before@.len() + after@.len()),
        lies_round(command, before@.len(), before@.len() + after@.len()),
    ensures
        text::finishes_with(before@, r.0@),
        text::begins_with(after@, r.1@),
        menu matches Some(m) ==> r.0@.len() == before@.len() - m.0 && r.1@.len() == m.1
            - before@.len(),
        menu is None && file is None && command is None ==> r.0@.len() == 0 && r.1@.len() == 0,
{
    let input = before@ + after@;
    let cursor = before@.len() as int;
    let range = replaced_range(menu, file, command, cursor as usize);
    what_is_replaced_lies_round_the_cursor(
        menu,
        file,
        command,
        cursor as usize,
        before@.len() + after@.len(),
    );
    assert(before@.subrange(before@.len() - r.0@.len(), before@.len() as int) == r.0@);
    assert(after@.subrange(0, r.1@.len() as int) == r.1@);
}

} // verus!
