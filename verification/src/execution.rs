//! How an occurrence of a scheduled job is carried out.
use crate::catalog;
use crate::catalog::{EntryView, ModelCatalogEntry, ModelSelection};
use crate::conversation::TreeView;
use crate::cron::{CronJob, CronOccurrenceStatus};
use crate::daemon::JobCompletion;
use crate::hierarchy::ScheduledRun;
use crate::merge;
use crate::message;
use crate::session::Session;
use crate::text;
use vstd::prelude::*;
use vstd::string::*;

verus! {

// ---------------------------------------------------------------------------
// Turns

/// How the turn of a job ended.
#[derive(Debug)]
pub enum JobTurnResult {
    Completed(String),
    Failed(String),
    TimedOut,
}

/// How the turn of a job ended.
pub enum TurnResultView {
    Completed(Seq<char>),
    Failed(Seq<char>),
    TimedOut,
}

impl View for JobTurnResult {
    type V = TurnResultView;

    open spec fn view(&self) -> TurnResultView {
        match *self {
            JobTurnResult::Completed(m) => TurnResultView::Completed(m@),
            JobTurnResult::Failed(e) => TurnResultView::Failed(e@),
            JobTurnResult::TimedOut => TurnResultView::TimedOut,
        }
    }
}

impl JobTurnResult {
    /// How a turn ended, by what its task hands back: the task may have failed, or the conversation,
    /// or the turn.
    pub fn from_join(result: Result<Result<Result<String, String>, String>, String>) -> (r: JobTurnResult)
        ensures
            r@ == (match result {
                Ok(Ok(Ok(m))) => TurnResultView::Completed(m@),
                Ok(Ok(Err(e))) => TurnResultView::Failed(e@),
                Ok(Err(e)) => TurnResultView::Failed(e@),
                Err(e) => TurnResultView::Failed("conversation task failed: "@ + e@),
            }),
    {
        match result {
            Ok(Ok(Ok(m))) => JobTurnResult::Completed(m),
            Ok(Ok(Err(e))) => JobTurnResult::Failed(e),
            Ok(Err(e)) => JobTurnResult::Failed(e),
            Err(e) => JobTurnResult::Failed(text::cat2("conversation task failed: ", &e)),
        }
    }
}

/// How an occurrence ended.
#[verifier::ext_equal]
pub struct CompletionView {
    pub job_id: Seq<char>,
    pub sequence: u64,
    pub status: CronOccurrenceStatus,
    pub session_id: Option<u128>,
    pub last_message: Option<Seq<char>>,
    pub error: Option<Seq<char>>,
}

impl View for JobCompletion {
    type V = CompletionView;

    open spec fn view(&self) -> CompletionView {
        CompletionView {
            job_id: self.job_id@,
            sequence: self.sequence,
            status: self.status,
            session_id: self.session_id,
            last_message: message::opt_view(self.last_message),
            error: message::opt_view(self.error),
        }
    }
}

/// How an occurrence ended by how its turn did.
pub open spec fn ended(
    job_id: Seq<char>,
    sequence: u64,
    session_id: Option<u128>,
    result: TurnResultView,
) -> CompletionView {
    let (status, last_message, error) = match result {
        TurnResultView::Completed(m) => (CronOccurrenceStatus::Completed, Some(m), None),
        TurnResultView::Failed(e) => (CronOccurrenceStatus::Failed, None, Some(e)),
        TurnResultView::TimedOut => (
            CronOccurrenceStatus::TimedOut,
            None,
            Some("the configured execution timeout elapsed"@),
        ),
    };
    CompletionView { job_id, sequence, status, session_id, last_message, error }
}

fn completion(
    job_id: &str,
    sequence: u64,
    session_id: Option<u128>,
    result: JobTurnResult,
) -> (c: JobCompletion)
    ensures
        c@ == ended(job_id@, sequence, session_id, result@),
{
    let job_id = job_id.to_owned();
    match result {
        JobTurnResult::Completed(m) => JobCompletion {
            job_id,
            sequence,
            status: CronOccurrenceStatus::Completed,
            session_id,
            last_message: Some(m),
            error: None,
        },
        JobTurnResult::Failed(e) => JobCompletion {
            job_id,
            sequence,
            status: CronOccurrenceStatus::Failed,
            session_id,
            last_message: None,
            error: Some(e),
        },
        JobTurnResult::TimedOut => JobCompletion {
            job_id,
            sequence,
            status: CronOccurrenceStatus::TimedOut,
            session_id,
            last_message: None,
            error: Some("the configured execution timeout elapsed".to_owned()),
        },
    }
}

// ---------------------------------------------------------------------------
// The session and the model of a job

/// Whether a session is the one that an occurrence begins with.
pub open spec fn begins(
    s: Session,
    job: CronJob,
    run: (Seq<char>, u64, i128),
    id: u128,
    now: i128,
) -> bool {
    &&& s.wf()
    &&& s.id == id
    &&& s.created_at == now
    &&& s.updated_at == now
    &&& s.provider == job.provider
    &&& s.model == job.model
    &&& s.reasoning_effort == job.reasoning
    &&& s.service_tier == job.speed
    &&& s.parent_session_id == job.source_session_id
    &&& s.scheduled_run matches Some(r) && (r.job_id@, r.occurrence, r.scheduled_at) == run
    &&& s.title@ == "New session"@
    &&& s.messages@ == TreeView::of(Seq::empty(), None)
    &&& s.activities@.len() == 0
    &&& s.next_event_sequence == 0
    &&& s.turns@.len() == 0
    &&& s.goals@.len() == 0
    &&& s.visible_goal_id is None
    &&& s.compaction_checkpoints@.len() == 0
    &&& s.latest_request_usage is None
    &&& s.next_terminal_id == 1
    &&& s.terminals@.len() == 0
    &&& s.attachments@.len() == 0
    &&& s.file_changes@.len() == 0
}

/// The session that an occurrence begins with.
pub fn scheduled_session(
    job: &CronJob,
    job_id: &str,
    sequence: u64,
    scheduled_at: i128,
    id: u128,
    now: i128,
) -> (s: Session)
    ensures
        begins(s, *job, (job_id@, sequence, scheduled_at), id, now),
{
    let mut s = Session::create_with(job.provider.clone(), job.model.clone(), id, now);
    s.reasoning_effort = job.reasoning.clone();
    s.service_tier = job.speed.clone();
    s.parent_session_id = job.source_session_id;
    s.scheduled_run = Some(
        ScheduledRun { job_id: job_id.to_owned(), occurrence: sequence, scheduled_at },
    );
    s
}

/// What a person is told where what a job asks for is not offered.
pub open spec fn unavailable(job: CronJob, models: Seq<EntryView>) -> Option<Seq<char>> {
    let at = catalog::entry_at(models, job.model@, 0);
    if at >= models.len() {
        Some(
            "scheduled model "@ + text::quoted(job.model@) + " is unavailable from provider "@
                + text::quoted(job.provider@),
        )
    } else {
        match (job.reasoning, job.speed) {
            (Some(r), _) if !merge::has_option(models[at].reasoning_levels, r@) => Some(
                "scheduled reasoning effort "@ + text::quoted(r@) + " is unavailable for model "@
                    + text::quoted(job.model@),
            ),
            (_, Some(t)) if !merge::has_option(models[at].service_tiers, t@) => Some(
                "scheduled service tier "@ + text::quoted(t@) + " is unavailable for model "@
                    + text::quoted(job.model@),
            ),
            _ => None,
        }
    }
}

/// The model of a job with its settings, where they are offered.
pub fn check_model(job: &CronJob, models: &Vec<ModelCatalogEntry>) -> (r: Result<
    ModelSelection,
    String,
>)
    ensures
        match unavailable(*job, catalog::entry_views(models@)) {
            Some(m) => r matches Err(e) && e@ == m,
            None => r matches Ok(s) && s == chosen(*job),
        },
{
    let at: usize = catalog::find_entry(models, &job.model);
    if at == models.len() {
        return Err(
            text::cat4(
                "scheduled model ",
                &text::quote(&job.model),
                " is unavailable from provider ",
                &text::quote(&job.provider),
            ),
        );
    }
    let model = &models[at];
    assert(catalog::entry_views(models@)[at as int] == model@);
    if let Some(r) = &job.reasoning {
        if !model.supports_reasoning(r) {
            return Err(
                text::cat4(
                    "scheduled reasoning effort ",
                    &text::quote(r),
                    " is unavailable for model ",
                    &text::quote(&job.model),
                ),
            );
        }
    }
    if let Some(t) = &job.speed {
        if !model.supports_tier(t) {
            return Err(
                text::cat4(
                    "scheduled service tier ",
                    &text::quote(t),
                    " is unavailable for model ",
                    &text::quote(&job.model),
                ),
            );
        }
    }
    Ok(
        ModelSelection {
            model: job.model.clone(),
            reasoning_effort: job.reasoning.clone(),
            service_tier: job.speed.clone(),
        },
    )
}

/// The model of a job with its settings.
pub open spec fn chosen(job: CronJob) -> ModelSelection {
    ModelSelection { model: job.model, reasoning_effort: job.reasoning, service_tier: job.speed }
}

// ---------------------------------------------------------------------------
// Carrying out

/// How far the execution of an occurrence is.
#[derive(Debug)]
pub enum Stage {
    /// The project is looked for.
    Opening,
    /// The session is saved.
    Saving,
    /// The models are asked for.
    Asking,
    /// The model is set.
    Choosing,
    /// The turn runs.
    Running,
    /// The conversation is put away.
    Closing(JobTurnResult),
    /// It is over.
    Over,
}

/// The execution of an occurrence.
#[derive(Debug)]
pub struct Execution {
    pub job_id: String,
    pub sequence: u64,
    pub scheduled_at: i128,
    pub session_id: Option<u128>,
    pub stage: Stage,
}

/// What has to be done for an execution to go on.
#[derive(Debug)]
pub enum JobAction {
    /// Save the session.
    Save(Session),
    /// Ask for the models that there are.
    FetchModels,
    /// Set the model of the session, and save it.
    Choose(ModelSelection),
    /// Let the conversation answer, for so many seconds at most.
    RunTurn { prompt: String, seconds: Option<u64> },
    /// Put the conversation away if it is idle.
    Close,
    /// Nothing: it is over.
    Finish(JobCompletion),
}

/// What has come of what had to be done.
#[derive(Debug)]
pub enum JobEvent {
    /// The project was looked for; a session may have the id.
    Project { root: String, is_directory: bool, id: u128, now: i128 },
    /// It was done.
    Done,
    /// The models that there are.
    Models(Vec<ModelCatalogEntry>),
    /// The turn ended.
    Ended(JobTurnResult),
    /// It went wrong.
    Error(String),
}

/// What a person is told where the directory of a project is missing.
pub open spec fn missing_project(root: Seq<char>) -> Seq<char> {
    "project directory does not exist: "@ + root
}

/// Whether an execution ends with an error.
pub open spec fn fails(
    before: Execution,
    after: Execution,
    action: JobAction,
    error: Seq<char>,
) -> bool {
    &&& after.stage is Over
    &&& after.session_id == before.session_id
    &&& action matches JobAction::Finish(c) && c@ == ended(
        before.job_id@,
        before.sequence,
        before.session_id,
        TurnResultView::Failed(error),
    )
}

/// Whether an event is what a stage of carrying out a job waits for; only a job with a limit on its
/// time can run out of it.
pub open spec fn awaited(stage: Stage, job: CronJob, event: JobEvent) -> bool {
    match event {
        JobEvent::Error(_) => !(stage is Over),
        JobEvent::Project { .. } => stage is Opening,
        JobEvent::Done => stage is Saving || stage is Choosing || stage is Closing,
        JobEvent::Models(_) => stage is Asking,
        JobEvent::Ended(result) => stage is Running && (result is TimedOut
            ==> job.timeout_seconds is Some),
    }
}

/// How an execution goes on with an event.
pub open spec fn goes_on(
    before: Execution,
    job: CronJob,
    event: JobEvent,
    after: Execution,
    action: JobAction,
) -> bool {
    &&& after.job_id == before.job_id
    &&& after.sequence == before.sequence
    &&& after.scheduled_at == before.scheduled_at
    &&& match (before.stage, event) {
        (_, JobEvent::Error(e)) => fails(before, after, action, e@),
        (_, JobEvent::Project { root, is_directory, id, now }) => if is_directory {
            &&& after.stage is Saving
            &&& after.session_id == Some(id)
            &&& action matches JobAction::Save(s) && begins(
                s,
                job,
                (before.job_id@, before.sequence, before.scheduled_at),
                id,
                now,
            )
        } else {
            fails(before, after, action, missing_project(root@))
        },
        (_, JobEvent::Models(models)) => match unavailable(job, catalog::entry_views(models@)) {
            Some(m) => fails(before, after, action, m),
            None => {
                &&& after.stage is Choosing
                &&& after.session_id == before.session_id
                &&& action == JobAction::Choose(chosen(job))
            },
        },
        (_, JobEvent::Ended(result)) => {
            &&& after.stage == Stage::Closing(result)
            &&& after.session_id == before.session_id
            &&& action is Close
        },
        (Stage::Saving, _) => {
            &&& after.stage is Asking
            &&& after.session_id == before.session_id
            &&& action is FetchModels
        },
        (Stage::Closing(result), _) => {
            &&& after.stage is Over
            &&& after.session_id == before.session_id
            &&& action matches JobAction::Finish(c) && c@ == ended(
                before.job_id@,
                before.sequence,
                before.session_id,
                result@,
            )
        },
        _ => {
            &&& after.stage is Running
            &&& after.session_id == before.session_id
            &&& action == (JobAction::RunTurn { prompt: job.prompt, seconds: job.timeout_seconds })
        },
    }
}

impl Execution {
    /// An occurrence about to be carried out: the project has to be looked for.
    pub fn begin(job_id: String, sequence: u64, scheduled_at: i128) -> (e: Execution)
        ensures
            e == (Execution {
                job_id,
                sequence,
                scheduled_at,
                session_id: None,
                stage: Stage::Opening,
            }),
    {
        Execution { job_id, sequence, scheduled_at, session_id: None, stage: Stage::Opening }
    }

    /// Goes on with an event; an event that is not waited for changes nothing.
    pub fn next(&mut self, job: &CronJob, event: JobEvent) -> (r: Option<JobAction>)
        ensures
            awaited(old(self).stage, *job, event) ==> (r matches Some(action) && goes_on(
                *old(self),
                *job,
                event,
                *final(self),
                action,
            )),
            !awaited(old(self).stage, *job, event) ==> r is None && *final(self) == *old(self),
    {
        match event {
            JobEvent::Error(e) => {
                if let Stage::Over = self.stage {
                    return None;
                }
                Some(self.fail(e))
            },
            JobEvent::Project { root, is_directory, id, now } => {
                if let Stage::Opening = self.stage {
                } else {
                    return None;
                }
                if !is_directory {
                    return Some(self.fail(text::cat2("project directory does not exist: ", &root)));
                }
                let s = scheduled_session(
                    job,
                    &self.job_id,
                    self.sequence,
                    self.scheduled_at,
                    id,
                    now,
                );
                self.session_id = Some(id);
                self.stage = Stage::Saving;
                Some(JobAction::Save(s))
            },
            JobEvent::Models(models) => {
                if let Stage::Asking = self.stage {
                } else {
                    return None;
                }
                match check_model(job, &models) {
                    Ok(selection) => {
                        self.stage = Stage::Choosing;
                        Some(JobAction::Choose(selection))
                    },
                    Err(e) => Some(self.fail(e)),
                }
            },
            JobEvent::Ended(result) => {
                if let Stage::Running = self.stage {
                } else {
                    return None;
                }
                if let JobTurnResult::TimedOut = result {
                    if job.timeout_seconds.is_none() {
                        return None;
                    }
                }
                self.stage = Stage::Closing(result);
                Some(JobAction::Close)
            },
            JobEvent::Done => {
                match self.stage {
                    Stage::Saving => {
                        self.stage = Stage::Asking;
                        Some(JobAction::FetchModels)
                    },
                    Stage::Choosing => {
                        self.stage = Stage::Running;
                        Some(
                            JobAction::RunTurn {
                                prompt: job.prompt.clone(),
                                seconds: job.timeout_seconds,
                            },
                        )
                    },
                    Stage::Closing(_) => {
                        let mut stage = Stage::Over;
                        std::mem::swap(&mut self.stage, &mut stage);
                        match stage {
                            Stage::Closing(result) => Some(
                                JobAction::Finish(
                                    completion(
                                        &self.job_id,
                                        self.sequence,
                                        self.session_id,
                                        result,
                                    ),
                                ),
                            ),
                            _ => None,
                        }
                    },
                    _ => None,
                }
            },
        }
    }

    fn fail(&mut self, error: String) -> (action: JobAction)
        ensures
            final(self).job_id == old(self).job_id,
            final(self).sequence == old(self).sequence,
            final(self).scheduled_at == old(self).scheduled_at,
            fails(*old(self), *final(self), action, error@),
    {
        self.stage = Stage::Over;
        JobAction::Finish(
            completion(&self.job_id, self.sequence, self.session_id, JobTurnResult::Failed(error)),
        )
    }
}

/// How many steps an execution has before it at most.
pub open spec fn steps_left(stage: Stage) -> nat {
    match stage {
        Stage::Opening => 6,
        Stage::Saving => 5,
        Stage::Asking => 4,
        Stage::Choosing => 3,
        Stage::Running => 2,
        Stage::Closing(_) => 1,
        Stage::Over => 0,
    }
}

/// An execution ends: each event that is waited for brings it nearer to its end, and when it is over,
/// and only then, it says how the occurrence of its job ended.
pub proof fn executions_end(
    before: Execution,
    job: CronJob,
    event: JobEvent,
    after: Execution,
    action: JobAction,
)
    requires
        awaited(before.stage, job, event),
        goes_on(before, job, event, after, action),
    ensures
        steps_left(after.stage) < steps_left(before.stage),
        after.stage is Over <==> action is Finish,
        action matches JobAction::Finish(c) ==> c.job_id@ == before.job_id@ && c.sequence
            == before.sequence && c.session_id == before.session_id && c.status
            != CronOccurrenceStatus::Queued && c.status != CronOccurrenceStatus::Running,
{
    if let JobAction::Finish(c) = action {
        assert(c.job_id@ == c@.job_id);
        assert(c.status == c@.status);
    }
}

// ---------------------------------------------------------------------------
// Laws
/// An occurrence ends as its turn did: with the last message where it was completed, with the error
/// where it failed, and with neither a message nor success where its time ran out.
pub proof fn an_occurrence_ends_as_its_turn(
    job_id: Seq<char>,
    sequence: u64,
    session_id: Option<u128>,
    said: Seq<char>,
)
    ensures
        ended(job_id, sequence, session_id, TurnResultView::Completed(said)) == (CompletionView {
            job_id,
            sequence,
            status: CronOccurrenceStatus::Completed,
            session_id,
            last_message: Some(said),
            error: None,
        }),
        ended(job_id, sequence, session_id, TurnResultView::Failed(said)) == (CompletionView {
            job_id,
            sequence,
            status: CronOccurrenceStatus::Failed,
            session_id,
            last_message: None,
            error: Some(said),
        }),
        ({
            let c = ended(job_id, sequence, session_id, TurnResultView::TimedOut);
            &&& c.status == CronOccurrenceStatus::TimedOut
            &&& c.last_message is None
            &&& c.error is Some
            &&& c.job_id == job_id && c.sequence == sequence && c.session_id == session_id
        }),
{
}

/// What a job runs with is what it says: its session has the provider, the model and the settings of
/// the job and knows its occurrence, and its turn gets the prompt and the time limit of the job.
pub proof fn a_job_runs_with_what_it_says(
    before: Execution,
    job: CronJob,
    event: JobEvent,
    after: Execution,
    action: JobAction,
)
    requires
        awaited(before.stage, job, event),
        goes_on(before, job, event, after, action),
    ensures
        action matches JobAction::Save(s) ==> s.provider == job.provider && s.model == job.model
            && s.reasoning_effort == job.reasoning && s.service_tier == job.speed
            && s.parent_session_id == job.source_session_id && after.session_id == Some(s.id) && (
        s.scheduled_run matches Some(r) && r.job_id@ == before.job_id@ && r.occurrence
            == before.sequence && r.scheduled_at == before.scheduled_at),
        action matches JobAction::Choose(m) ==> m.model == job.model && m.reasoning_effort
            == job.reasoning && m.service_tier == job.speed,
        action matches JobAction::RunTurn { prompt, seconds } ==> prompt == job.prompt && seconds
            == job.timeout_seconds,
{
}

/// The steps of an execution follow each other where all goes well: the session is saved, the models
/// are asked for, the model is set, the turn runs, the conversation is put away and the end is told.
pub proof fn executions_go_step_by_step(
    before: Execution,
    job: CronJob,
    event: JobEvent,
    after: Execution,
    action: JobAction,
)
    requires
        awaited(before.stage, job, event),
        goes_on(before, job, event, after, action),
        !(event is Error),
    ensures
        before.stage is Opening ==> action is Save || action is Finish,
        before.stage is Saving ==> action is FetchModels && after.stage is Asking,
        before.stage is Asking ==> action is Choose || action is Finish,
        before.stage is Choosing ==> action is RunTurn && after.stage is Running,
        before.stage is Running ==> action is Close && (event matches JobEvent::Ended(r)
            && after.stage == Stage::Closing(r)),
        before.stage matches Stage::Closing(r) ==> (action matches JobAction::Finish(c) && c@ == ended(
            before.job_id@,
            before.sequence,
            before.session_id,
            r@,
        )),
{
}

/// What goes wrong ends an execution, and is told.
pub proof fn what_goes_wrong_ends_an_execution(
    before: Execution,
    job: CronJob,
    error: String,
    after: Execution,
    action: JobAction,
)
    requires
        awaited(before.stage, job, JobEvent::Error(error)),
        goes_on(before, job, JobEvent::Error(error), after, action),
    ensures
        after.stage is Over,
        action matches JobAction::Finish(c) && c@.status == CronOccurrenceStatus::Failed && c@.error
            == Some(error@) && c@.last_message is None && c@.session_id == before.session_id,
{
}

proof fn lemma_entry(models: Seq<EntryView>, model: Seq<char>, from: int, i: int)
    requires
        0 <= from <= i <= models.len(),
        i < models.len() ==> models[i].slug == model,
        forall|j: int| 0 <= j < i ==> (#[trigger] models[j]).slug != model,
    ensures
        catalog::entry_at(models, model, from) == i,
    decreases i - from,
{
    if from < i {
        assert(models[from].slug != model);
        lemma_entry(models, model, from + 1, i);
    }
}

/// A job can run exactly where its model is offered with the settings that it names.
pub proof fn a_job_needs_its_model(job: CronJob, models: Seq<EntryView>, i: int)
    requires
        0 <= i <= models.len(),
        i < models.len() ==> models[i].slug == job.model@,
        forall|j: int| 0 <= j < i ==> (#[trigger] models[j]).slug != job.model@,
    ensures
        unavailable(job, models) is None <==> i < models.len() && (job.reasoning matches Some(r)
            ==> exists|k: int|
            0 <= k < models[i].reasoning_levels.len() && (#[trigger] models[i].reasoning_levels[k]).id
                == r@) && (job.speed matches Some(t) ==> exists|k: int|
            0 <= k < models[i].service_tiers.len() && (#[trigger] models[i].service_tiers[k]).id
                == t@),
{
    lemma_entry(models, job.model@, 0, i);
}

/// A turn was completed only where its task, its conversation and the turn itself went well; else it
/// failed with what went wrong first.
pub proof fn a_turn_ends_as_its_task(
    result: Result<Result<Result<String, String>, String>, String>,
    r: JobTurnResult,
)
    requires
        call_ensures(JobTurnResult::from_join, (result,), r),
    ensures
        r is Completed <==> (result matches Ok(Ok(Ok(_)))),
        !(r is TimedOut),
        result matches Ok(Ok(Ok(m))) ==> r@ == TurnResultView::Completed(m@),
        result matches Ok(Ok(Err(e))) ==> r@ == TurnResultView::Failed(e@),
        result matches Ok(Err(e)) ==> r@ == TurnResultView::Failed(e@),
        result matches Err(e) ==> (r@ matches TurnResultView::Failed(m) && text::finishes_with(
            m,
            e@,
        )),
{
    if let Err(e) = result {
        let m = "conversation task failed: "@ + e@;
        assert(m.subrange(m.len() - e@.len(), m.len() as int) == e@);
    }
    match r {
        JobTurnResult::Completed(_) => {},
        JobTurnResult::Failed(_) => {},
        JobTurnResult::TimedOut => {},
    }
}

} // verus!
