//! Scheduled jobs: what is stored of them, and what happens when they are due.
use crate::hash;
use crate::message;
use crate::schedule;
use crate::schedule::{
    OccurrenceError, OccurrenceFault, ParsedSchedule, ScheduleError, ScheduleFault, ScheduleView,
};
use crate::table;
use crate::table::Table;
use crate::paths;
use crate::paths::Platform;
use crate::text;
use vstd::prelude::*;
use vstd::string::*;

verus! {

/// The version of stored schedules.
pub const CRON_DOCUMENT_VERSION: u32 = 1;

/// The version of stored runtime states.
pub const CRON_STATE_VERSION: u32 = 1;

/// How many occurrences a preview shows.
pub const NEXT_OCCURRENCE_PREVIEW_COUNT: usize = 5;

/// What happens when a job is due while it is still running.
#[derive(Clone, Copy, Debug, PartialEq, Eq, Structural)]
pub enum OverlapPolicy {
    Skip,
    Queue,
}

/// How far an occurrence is.
#[derive(Clone, Copy, Debug, PartialEq, Eq, Structural)]
pub enum CronOccurrenceStatus {
    Queued,
    Running,
    Completed,
    Failed,
    TimedOut,
    SkippedOverlap,
}

/// How far a job is that runs only once.
#[derive(Clone, Copy, Debug, PartialEq, Eq, Structural)]
pub enum OneTimeStatus {
    Pending,
    Completed,
    Failed,
    TimedOut,
    Expired,
}

/// A scheduled job.
#[derive(Debug)]
pub struct CronJob {
    pub schedule: String,
    pub enabled: bool,
    pub project: String,
    pub prompt: String,
    pub provider: String,
    pub model: String,
    pub reasoning: Option<String>,
    pub speed: Option<String>,
    pub timezone: Option<String>,
    pub overlap: OverlapPolicy,
    pub timeout_seconds: Option<u64>,
    pub source_session_id: Option<u128>,
}

impl Clone for CronJob {
    fn clone(&self) -> (r: Self)
        ensures
            r == *self,
    {
        CronJob {
            schedule: self.schedule.clone(),
            enabled: self.enabled,
            project: self.project.clone(),
            prompt: self.prompt.clone(),
            provider: self.provider.clone(),
            model: self.model.clone(),
            reasoning: message::copy_text(&self.reasoning),
            speed: message::copy_text(&self.speed),
            timezone: message::copy_text(&self.timezone),
            overlap: self.overlap,
            timeout_seconds: self.timeout_seconds,
            source_session_id: self.source_session_id,
        }
    }
}

/// The stored schedule.
#[derive(Debug)]
pub struct CronDocument {
    pub version: u32,
    pub timezone: String,
    pub jobs: Table<CronJob>,
}

/// One occurrence of a job.
#[derive(Debug)]
pub struct CronOccurrence {
    pub sequence: u64,
    pub scheduled_at: i128,
    pub status: CronOccurrenceStatus,
    pub started_at: Option<i128>,
    pub completed_at: Option<i128>,
    pub session_id: Option<u128>,
    pub last_message: Option<String>,
    pub error: Option<String>,
    pub manual: bool,
}

impl Clone for CronOccurrence {
    fn clone(&self) -> (r: Self)
        ensures
            r == *self,
    {
        CronOccurrence {
            sequence: self.sequence,
            scheduled_at: self.scheduled_at,
            status: self.status,
            started_at: self.started_at,
            completed_at: self.completed_at,
            session_id: self.session_id,
            last_message: message::copy_text(&self.last_message),
            error: message::copy_text(&self.error),
            manual: self.manual,
        }
    }
}

/// What is stored of the occurrences of a job.
#[derive(Debug)]
pub struct CronJobState {
    pub next_sequence: u64,
    pub one_time_status: Option<OneTimeStatus>,
    pub occurrences: Vec<CronOccurrence>,
}

/// What is stored of the occurrences of all jobs.
#[derive(Debug)]
pub struct CronRuntimeState {
    pub version: u32,
    pub jobs: Table<CronJobState>,
}

/// Whether jobs are enabled where nothing says otherwise.
pub fn enabled_by_default() -> (r: bool)
    ensures
        r,
{
    true
}

/// The number of the first occurrence of a job.
pub fn first_occurrence_sequence() -> (n: u64)
    ensures
        n == 1,
{
    1
}

// ---------------------------------------------------------------------------
// The model

/// What an occurrence says.
#[verifier::ext_equal]
pub struct OccurrenceView {
    pub sequence: u64,
    pub scheduled_at: i128,
    pub status: CronOccurrenceStatus,
    pub started_at: Option<i128>,
    pub completed_at: Option<i128>,
    pub session_id: Option<u128>,
    pub last_message: Option<Seq<char>>,
    pub error: Option<Seq<char>>,
    pub manual: bool,
}

/// What the state of a job says.
#[verifier::ext_equal]
pub struct JobStateView {
    pub next_sequence: u64,
    pub one_time_status: Option<OneTimeStatus>,
    pub occurrences: Seq<OccurrenceView>,
}

impl View for CronOccurrence {
    type V = OccurrenceView;

    open spec fn view(&self) -> OccurrenceView {
        OccurrenceView {
            sequence: self.sequence,
            scheduled_at: self.scheduled_at,
            status: self.status,
            started_at: self.started_at,
            completed_at: self.completed_at,
            session_id: self.session_id,
            last_message: message::opt_view(self.last_message),
            error: message::opt_view(self.error),
            manual: self.manual,
        }
    }
}

/// What a list of occurrences says.
pub open spec fn occurrence_views(v: Seq<CronOccurrence>) -> Seq<OccurrenceView> {
    Seq::new(v.len(), |i: int| v[i]@)
}

impl View for CronJobState {
    type V = JobStateView;

    open spec fn view(&self) -> JobStateView {
        JobStateView {
            next_sequence: self.next_sequence,
            one_time_status: self.one_time_status,
            occurrences: occurrence_views(self.occurrences@),
        }
    }
}

/// What the states of all jobs say.
pub open spec fn state_views(jobs: Map<Seq<char>, CronJobState>) -> Map<Seq<char>, JobStateView> {
    Map::new(|k: Seq<char>| jobs.contains_key(k), |k: Seq<char>| jobs[k]@)
}

/// The state of a job that nothing is stored of.
pub open spec fn no_state() -> JobStateView {
    JobStateView { next_sequence: 0, one_time_status: None, occurrences: Seq::empty() }
}

/// The state of a job.
pub open spec fn state_of(jobs: Map<Seq<char>, JobStateView>, id: Seq<char>) -> JobStateView {
    if jobs.contains_key(id) {
        jobs[id]
    } else {
        no_state()
    }
}

/// The position of the first occurrence with a number, at or after `from`.
pub open spec fn occurrence_at(v: Seq<OccurrenceView>, sequence: u64, from: int) -> int
    decreases v.len() - from,
{
    if from >= v.len() {
        v.len() as int
    } else if v[from].sequence == sequence {
        from
    } else {
        occurrence_at(v, sequence, from + 1)
    }
}

/// An occurrence that is found has the number, and none before it has.
pub proof fn lemma_occurrence_at(v: Seq<OccurrenceView>, sequence: u64, from: int)
    requires
        0 <= from <= v.len(),
    ensures
        from <= occurrence_at(v, sequence, from) <= v.len(),
        occurrence_at(v, sequence, from) < v.len() ==> v[occurrence_at(v, sequence, from)].sequence
            == sequence,
        forall|j: int|
            from <= j < occurrence_at(v, sequence, from) ==> (#[trigger] v[j]).sequence != sequence,
    decreases v.len() - from,
{
    if from < v.len() && v[from].sequence != sequence {
        lemma_occurrence_at(v, sequence, from + 1);
    }
}

impl CronJobState {
    /// The state of a job that nothing is stored of.
    pub fn new() -> (s: CronJobState)
        ensures
            s@ == no_state(),
    {
        let s = CronJobState { next_sequence: 0, one_time_status: None, occurrences: Vec::new() };
        assert(s@.occurrences == Seq::<OccurrenceView>::empty());
        s
    }

    /// A copy of the state.
    pub fn copy(&self) -> (s: CronJobState)
        ensures
            s@ == self@,
    {
        let mut occurrences: Vec<CronOccurrence> = Vec::new();
        let mut i: usize = 0;
        while i < self.occurrences.len()
            invariant
                i <= self.occurrences@.len(),
                occurrences@ == self.occurrences@.take(i as int),
            decreases self.occurrences@.len() - i,
        {
            occurrences.push(self.occurrences[i].clone());
            i += 1;
        }
        CronJobState {
            next_sequence: self.next_sequence,
            one_time_status: self.one_time_status,
            occurrences,
        }
    }

    /// The position of the first occurrence with a number.
    pub(crate) fn position(&self, sequence: u64) -> (r: usize)
        ensures
            r as int == occurrence_at(self@.occurrences, sequence, 0),
            r <= self.occurrences@.len(),
    {
        let ghost v = self@.occurrences;
        let mut i: usize = 0;
        while i < self.occurrences.len() && self.occurrences[i].sequence != sequence
            invariant
                i <= self.occurrences@.len(),
                v == occurrence_views(self.occurrences@),
                occurrence_at(v, sequence, 0) == occurrence_at(v, sequence, i as int),
            decreases self.occurrences@.len() - i,
        {
            assert(v[i as int].sequence == self.occurrences@[i as int].sequence);
            i += 1;
        }
        assert(i < v.len() ==> v[i as int].sequence == self.occurrences@[i as int].sequence);
        i
    }

    /// Puts an occurrence behind the others.
    pub(crate) fn add_occurrence(&mut self, occurrence: CronOccurrence)
        ensures
            final(self)@ == (JobStateView {
                occurrences: old(self)@.occurrences.push(occurrence@),
                ..old(self)@
            }),
    {
        let ghost before = self@.occurrences;
        let ghost o = occurrence@;
        self.occurrences.push(occurrence);
        assert(self@.occurrences == before.push(o));
    }
}

impl CronRuntimeState {
    /// Whether the table of jobs is sound.
    pub open spec fn wf(self) -> bool {
        self.jobs.wf()
    }

    /// The state before anything has run.
    pub fn new() -> (s: CronRuntimeState)
        ensures
            s.wf(),
            s.version == CRON_STATE_VERSION,
            state_views(s.jobs.map()) == Map::<Seq<char>, JobStateView>::empty(),
    {
        let s = CronRuntimeState { version: CRON_STATE_VERSION, jobs: Table::new() };
        assert(state_views(s.jobs.map()) == Map::<Seq<char>, JobStateView>::empty());
        s
    }

    /// Takes the state of a job out, to be put back.
    pub(crate) fn take(&mut self, id: &str) -> (s: CronJobState)
        requires
            old(self).wf(),
        ensures
            final(self).wf(),
            final(self).version == old(self).version,
            s@ == state_of(state_views(old(self).jobs.map()), id@),
            state_views(final(self).jobs.map()) == state_views(old(self).jobs.map()).remove(id@),
    {
        let ghost before = state_views(self.jobs.map());
        let taken = self.jobs.remove(id);
        assert(state_views(self.jobs.map()) == before.remove(id@));
        match taken {
            Some(s) => s,
            None => CronJobState::new(),
        }
    }

    /// Puts the state of a job back.
    pub(crate) fn put(&mut self, id: &str, s: CronJobState)
        requires
            old(self).wf(),
        ensures
            final(self).wf(),
            final(self).version == old(self).version,
            state_views(final(self).jobs.map()) == state_views(old(self).jobs.map()).insert(
                id@,
                s@,
            ),
    {
        let ghost before = state_views(self.jobs.map());
        let ghost v = s@;
        let _ = self.jobs.insert(id, s);
        assert(state_views(self.jobs.map()) == before.insert(id@, v));
    }
}

/// Whether a stored runtime state can be used.
pub fn check_state_version(version: u32) -> (r: Result<(), String>)
    ensures
        r is Ok == (version == CRON_STATE_VERSION),
        r matches Err(e) ==> e@ == "unsupported cron runtime state version "@ + text::decimal(
            version as nat,
        ) + "; expected "@ + text::decimal(CRON_STATE_VERSION as nat),
{
    if version == CRON_STATE_VERSION {
        Ok(())
    } else {
        Err(
            text::cat4(
                "unsupported cron runtime state version ",
                &text::to_decimal(version as u64),
                "; expected ",
                &text::to_decimal(CRON_STATE_VERSION as u64),
            ),
        )
    }
}

// ---------------------------------------------------------------------------
// Validity

/// Why a job cannot be stored.
#[derive(Debug)]
pub enum JobError {
    Schedule(ScheduleError),
    Zone(String),
    EmptyPrompt,
    RelativeProject,
    EmptyProvider,
    NoModel,
    NoTimeout,
}

/// Why a job cannot be stored.
pub enum JobFault {
    Schedule(ScheduleFault),
    Zone(Seq<char>),
    EmptyPrompt,
    RelativeProject,
    EmptyProvider,
    NoModel,
    NoTimeout,
}

impl View for JobError {
    type V = JobFault;

    open spec fn view(&self) -> JobFault {
        match *self {
            JobError::Schedule(e) => JobFault::Schedule(e@),
            JobError::Zone(z) => JobFault::Zone(z@),
            JobError::EmptyPrompt => JobFault::EmptyPrompt,
            JobError::RelativeProject => JobFault::RelativeProject,
            JobError::EmptyProvider => JobFault::EmptyProvider,
            JobError::NoModel => JobFault::NoModel,
            JobError::NoTimeout => JobFault::NoTimeout,
        }
    }
}

impl JobFault {
    /// What a person is told.
    pub open spec fn text(self) -> Seq<char> {
        match self {
            JobFault::Schedule(e) => e.text(),
            JobFault::Zone(z) => schedule::unknown_zone_text(z),
            JobFault::EmptyPrompt => "prompt cannot be empty"@,
            JobFault::RelativeProject => "project must be an absolute path"@,
            JobFault::EmptyProvider => "provider cannot be empty"@,
            JobFault::NoModel => "model must name a concrete provider model"@,
            JobFault::NoTimeout => "timeout_seconds must be greater than zero"@,
        }
    }
}

impl JobError {
    /// What a person is told.
    pub fn message(&self) -> (s: String)
        ensures
            s@ == self@.text(),
    {
        match self {
            JobError::Schedule(e) => e.message(),
            JobError::Zone(z) => schedule::unknown_zone(z),
            JobError::EmptyPrompt => "prompt cannot be empty".to_owned(),
            JobError::RelativeProject => "project must be an absolute path".to_owned(),
            JobError::EmptyProvider => "provider cannot be empty".to_owned(),
            JobError::NoModel => "model must name a concrete provider model".to_owned(),
            JobError::NoTimeout => "timeout_seconds must be greater than zero".to_owned(),
        }
    }
}

/// The time zone of a job.
pub open spec fn zone_of(job: CronJob, default_timezone: Seq<char>) -> Seq<char> {
    match job.timezone {
        Some(z) => z@,
        None => default_timezone,
    }
}

/// Why a job cannot be stored, where it cannot.
pub open spec fn job_fault(
    platform: Platform,
    job: CronJob,
    default_timezone: Seq<char>,
) -> Option<JobFault> {
    let zone = zone_of(job, default_timezone);
    if schedule::read_schedule(job.schedule@) is Err {
        Some(JobFault::Schedule(schedule::read_schedule(job.schedule@)->Err_0))
    } else if !schedule::zone_known(zone) {
        Some(JobFault::Zone(zone))
    } else if text::trimmed(job.prompt@).len() == 0 {
        Some(JobFault::EmptyPrompt)
    } else if !paths::absolute(platform, job.project@) {
        Some(JobFault::RelativeProject)
    } else if text::trimmed(job.provider@).len() == 0 {
        Some(JobFault::EmptyProvider)
    } else if text::trimmed(job.model@).len() == 0 || job.model@ == "auto"@ {
        Some(JobFault::NoModel)
    } else if job.timeout_seconds == Some(0u64) {
        Some(JobFault::NoTimeout)
    } else {
        None
    }
}

/// Whether a text may name a job.
pub open spec fn is_job_id(id: Seq<char>) -> bool {
    id.len() > 0 && forall|i: int| 0 <= i < id.len() ==> is_job_char(#[trigger] id[i])
}

/// Whether a character may stand in the name of a job.
pub open spec fn is_job_char(c: char) -> bool {
    text::is_lower(c) || text::is_upper(c) || text::is_digit(c) || c == '-' || c == '_'
}

/// Whether a text may name a job: letters, digits, hyphens and underscores.
pub fn validate_job_id(id: &str) -> (r: bool)
    ensures
        r == is_job_id(id@),
{
    let v = text::chars_of(id);
    if v.len() == 0 {
        return false;
    }
    let mut i: usize = 0;
    while i < v.len()
        invariant
            i <= v@.len(),
            v@ == id@,
            forall|j: int| 0 <= j < i ==> is_job_char(#[trigger] id@[j]),
        decreases v@.len() - i,
    {
        let c = v[i];
        if !(text::lower(c) || text::upper(c) || text::digit(c) || c == '-' || c == '_') {
            assert(!is_job_char(id@[i as int]));
            return false;
        }
        i += 1;
    }
    true
}

impl CronJob {
    /// The time zone of the job.
    pub fn zone<'a>(&'a self, default_timezone: &'a str) -> (z: &'a str)
        ensures
            z@ == zone_of(*self, default_timezone@),
    {
        match &self.timezone {
            Some(z) => z.as_str(),
            None => default_timezone,
        }
    }

    /// Whether the job can be stored.
    pub fn validate(&self, platform: Platform, default_timezone: &str) -> (r: Result<(), JobError>)
        ensures
            r is Ok == job_fault(platform, *self, default_timezone@) is None,
            r matches Err(e) ==> job_fault(platform, *self, default_timezone@) == Some(e@),
    {
        match schedule::parse_schedule(&self.schedule) {
            Ok(_) => {},
            Err(e) => {
                return Err(JobError::Schedule(e));
            },
        }
        let zone = self.zone(default_timezone);
        if !schedule::parse_time_zone(zone) {
            return Err(JobError::Zone(zone.to_owned()));
        }
        if text::trim(&self.prompt).is_empty() {
            return Err(JobError::EmptyPrompt);
        }
        if !paths::is_absolute(platform, &self.project) {
            return Err(JobError::RelativeProject);
        }
        if text::trim(&self.provider).is_empty() {
            return Err(JobError::EmptyProvider);
        }
        if text::trim(&self.model).is_empty() || text::same(&self.model, "auto") {
            return Err(JobError::NoModel);
        }
        if let Some(timeout) = self.timeout_seconds {
            if timeout == 0 {
                return Err(JobError::NoTimeout);
            }
        }
        Ok(())
    }

    /// What the schedule of the job is in words.
    pub fn description(&self, default_timezone: &str) -> (r: Result<String, OccurrenceError>)
        ensures
            match r {
                Ok(s) => schedule::description_of(
                    self.schedule@,
                    zone_of(*self, default_timezone@),
                ) == Ok::<Seq<char>, OccurrenceFault>(s@),
                Err(e) => schedule::description_of(
                    self.schedule@,
                    zone_of(*self, default_timezone@),
                ) == Err::<Seq<char>, OccurrenceFault>(e@),
            },
    {
        schedule::describe_schedule(&self.schedule, self.zone(default_timezone))
    }

    /// When the job runs, where it runs only once at a given instant.
    pub fn one_time_at(&self) -> (r: Result<Option<i128>, ScheduleError>)
        ensures
            match schedule::read_schedule(self.schedule@) {
                Ok(ScheduleView::At(at)) => r matches Ok(Some(i)) && i == at,
                Ok(_) => r == Ok::<Option<i128>, ScheduleError>(None),
                Err(f) => r matches Err(e) && e@ == f,
            },
    {
        match schedule::parse_schedule(&self.schedule) {
            Ok(ParsedSchedule::At(at)) => Ok(Some(at)),
            Ok(_) => Ok(None),
            Err(e) => Err(e),
        }
    }
}

/// The next `count` occurrences of a job after `after`.
pub fn next_occurrences(job: &CronJob, default_timezone: &str, after: i128, count: usize) -> (r:
    Result<Vec<i128>, OccurrenceError>)
    ensures
        match r {
            Ok(v) => schedule::next_of(
                job.schedule@,
                zone_of(*job, default_timezone@),
                after as int,
                count as nat,
            ) == Ok::<Seq<int>, OccurrenceFault>(schedule::instants(v@)),
            Err(e) => schedule::next_of(
                job.schedule@,
                zone_of(*job, default_timezone@),
                after as int,
                count as nat,
            ) == Err::<Seq<int>, OccurrenceFault>(e@),
        },
{
    schedule::next_schedule_occurrences(&job.schedule, job.zone(default_timezone), after, count)
}

/// The occurrences of a job after `after` that are due at `now`.
pub fn due_occurrences(job: &CronJob, default_timezone: &str, after: i128, now: i128) -> (r: Result<
    Vec<i128>,
    OccurrenceError,
>)
    requires
        schedule::is_instant(now as int),
    ensures
        match r {
            Ok(v) => schedule::due_of(
                job.schedule@,
                zone_of(*job, default_timezone@),
                after as int,
                now as int,
            ) == Ok::<Seq<int>, OccurrenceFault>(schedule::instants(v@)),
            Err(e) => schedule::due_of(
                job.schedule@,
                zone_of(*job, default_timezone@),
                after as int,
                now as int,
            ) == Err::<Seq<int>, OccurrenceFault>(e@),
        },
{
    schedule::due_schedule_occurrences(&job.schedule, job.zone(default_timezone), after, now)
}

/// Why a schedule cannot be stored or changed.
#[derive(Debug)]
pub enum CronError {
    /// The version is not supported.
    Version(u32),
    /// The time zone of the document is unknown.
    Zone(String),
    /// The name of a job is not allowed.
    JobId,
    /// A job of the document is not valid.
    Job { id: String, error: JobError },
    /// The job to be stored is not valid.
    NewJob(JobError),
    /// There is no such job.
    MissingJob(String),
    /// What was previewed has changed since.
    StalePreview,
    /// What was listed has changed since.
    StaleListing,
}

/// Why a schedule cannot be stored or changed.
pub enum CronFault {
    Version(u32),
    Zone(Seq<char>),
    JobId,
    Job { id: Seq<char>, fault: JobFault },
    NewJob(JobFault),
    MissingJob(Seq<char>),
    StalePreview,
    StaleListing,
}

impl View for CronError {
    type V = CronFault;

    open spec fn view(&self) -> CronFault {
        match *self {
            CronError::Version(v) => CronFault::Version(v),
            CronError::Zone(z) => CronFault::Zone(z@),
            CronError::JobId => CronFault::JobId,
            CronError::Job { id, error } => CronFault::Job { id: id@, fault: error@ },
            CronError::NewJob(e) => CronFault::NewJob(e@),
            CronError::MissingJob(id) => CronFault::MissingJob(id@),
            CronError::StalePreview => CronFault::StalePreview,
            CronError::StaleListing => CronFault::StaleListing,
        }
    }
}

impl CronFault {
    /// What a person is told.
    pub open spec fn text(self) -> Seq<char> {
        match self {
            CronFault::Version(v) => "unsupported cron document version "@ + text::decimal(
                v as nat,
            ) + "; expected "@ + text::decimal(CRON_DOCUMENT_VERSION as nat),
            CronFault::Zone(z) => schedule::unknown_zone_text(z),
            CronFault::JobId => "job IDs may contain only letters, numbers, '-' and '_'"@,
            CronFault::Job { id, fault } => "invalid cron job "@ + text::quoted(id) + ": "@
                + fault.text(),
            CronFault::NewJob(f) => f.text(),
            CronFault::MissingJob(id) => "cron job "@ + text::quoted(id) + " does not exist"@,
            CronFault::StalePreview =>
                "the schedule or existing job changed after preview; call cron_preview again and obtain explicit user confirmation"@,
            CronFault::StaleListing =>
                "the job changed after it was listed; call cron_list again and obtain explicit user confirmation"@,
        }
    }
}

impl CronError {
    /// What a person is told.
    pub fn message(&self) -> (s: String)
        ensures
            s@ == self@.text(),
    {
        match self {
            CronError::Version(v) => text::cat4(
                "unsupported cron document version ",
                &text::to_decimal(*v as u64),
                "; expected ",
                &text::to_decimal(CRON_DOCUMENT_VERSION as u64),
            ),
            CronError::Zone(z) => schedule::unknown_zone(z),
            CronError::JobId =>
                "job IDs may contain only letters, numbers, '-' and '_'".to_owned(),
            CronError::Job { id, error } => text::cat4(
                "invalid cron job ",
                &text::quote(id),
                ": ",
                &error.message(),
            ),
            CronError::NewJob(e) => e.message(),
            CronError::MissingJob(id) => text::cat3(
                "cron job ",
                &text::quote(id),
                " does not exist",
            ),
            CronError::StalePreview =>
                "the schedule or existing job changed after preview; call cron_preview again and obtain explicit user confirmation".to_owned(),
            CronError::StaleListing =>
                "the job changed after it was listed; call cron_list again and obtain explicit user confirmation".to_owned(),
        }
    }
}

/// Why the jobs from position `i` on cannot be stored, where they cannot: the first fault counts.
pub open spec fn jobs_fault(
    platform: Platform,
    names: Seq<Seq<char>>,
    jobs: Seq<CronJob>,
    zone: Seq<char>,
    i: int,
) -> Option<CronFault>
    decreases names.len() - i,
{
    if i >= names.len() {
        None
    } else if !is_job_id(names[i]) {
        Some(CronFault::JobId)
    } else {
        match job_fault(platform, jobs[i], zone) {
            Some(fault) => Some(CronFault::Job { id: names[i], fault }),
            None => jobs_fault(platform, names, jobs, zone, i + 1),
        }
    }
}

/// Why a document cannot be stored, where it cannot.
pub open spec fn document_fault(platform: Platform, d: CronDocument) -> Option<CronFault> {
    if d.version != CRON_DOCUMENT_VERSION {
        Some(CronFault::Version(d.version))
    } else if !schedule::zone_known(d.timezone@) {
        Some(CronFault::Zone(d.timezone@))
    } else {
        jobs_fault(platform, d.jobs.names(), d.jobs.values(), d.timezone@, 0)
    }
}

// ---------------------------------------------------------------------------
// Tokens that confirm a change

/// The bytes that confirm an action on a job: what is done, to which job, and how it is stored.
pub open spec fn action_bytes(action: Seq<char>, id: Seq<char>, job: Seq<u8>) -> Seq<u8> {
    vstd::utf8::encode_utf8(action) + seq![0u8] + vstd::utf8::encode_utf8(id) + seq![0u8] + job
}

/// The token that confirms an action on a job.
pub open spec fn action_token_of(action: Seq<char>, id: Seq<char>, job: Seq<u8>) -> Seq<char> {
    hash::sha256_hex(action_bytes(action, id, job))
}

/// The token that confirms that a job is stored in place of what was there.
pub open spec fn proposal_token_of(id: Seq<char>, job: Seq<u8>, existing: Option<Seq<u8>>) -> Seq<
    char,
> {
    hash::sha256_hex(
        vstd::utf8::encode_utf8(action_token_of("schedule"@, id, job)) + seq![0u8] + (
        match existing {
            Some(e) => e,
            None => vstd::utf8::encode_utf8("missing"@),
        }),
    )
}

/// The token that confirms an action on a job, of which `job` are the stored bytes.
pub fn action_token(action: &str, id: &str, job: &[u8]) -> (s: String)
    ensures
        s@ == action_token_of(action@, id@, job@),
{
    let mut bytes: Vec<u8> = Vec::new();
    hash::append(&mut bytes, action.as_bytes());
    assert(bytes@ == action.spec_bytes());
    bytes.push(0);
    hash::append(&mut bytes, id.as_bytes());
    bytes.push(0);
    hash::append(&mut bytes, job);
    assert(bytes@ == action_bytes(action@, id@, job@));
    hash::digest_hex(&bytes)
}

/// The token that confirms that a job is stored in place of what was there, of both of which the
/// stored bytes are given.
pub fn proposal_token(id: &str, job: &[u8], existing: Option<&[u8]>) -> (s: String)
    ensures
        s@ == proposal_token_of(
            id@,
            job@,
            match existing {
                Some(e) => Some(e@),
                None => None,
            },
        ),
{
    let token = action_token("schedule", id, job);
    let mut bytes: Vec<u8> = Vec::new();
    hash::append(&mut bytes, token.as_str().as_bytes());
    bytes.push(0);
    let ghost head = vstd::utf8::encode_utf8(token@) + seq![0u8];
    assert(bytes@ == head);
    match existing {
        Some(e) => hash::append(&mut bytes, e),
        None => hash::append(&mut bytes, "missing".as_bytes()),
    }
    hash::digest_hex(&bytes)
}

// ---------------------------------------------------------------------------
// Changing the document

impl CronDocument {
    /// Whether the table of jobs is sound.
    pub open spec fn wf(self) -> bool {
        self.jobs.wf()
    }

    /// A document without jobs.
    pub fn empty(timezone: String) -> (d: CronDocument)
        ensures
            d.wf(),
            d.version == CRON_DOCUMENT_VERSION,
            d.timezone == timezone,
            d.jobs.map() == Map::<Seq<char>, CronJob>::empty(),
    {
        CronDocument { version: CRON_DOCUMENT_VERSION, timezone, jobs: Table::new() }
    }

    /// Whether the document can be stored.
    pub fn validate(&self, platform: Platform) -> (r: Result<(), CronError>)
        requires
            self.wf(),
        ensures
            r is Ok == document_fault(platform, *self) is None,
            r matches Err(e) ==> document_fault(platform, *self) == Some(e@),
    {
        if self.version != CRON_DOCUMENT_VERSION {
            return Err(CronError::Version(self.version));
        }
        if !schedule::parse_time_zone(&self.timezone) {
            return Err(CronError::Zone(self.timezone.clone()));
        }
        let ghost names = self.jobs.names();
        let ghost jobs = self.jobs.values();
        let ghost zone = self.timezone@;
        let mut i: usize = 0;
        while i < self.jobs.len()
            invariant
                i <= names.len(),
                self.wf(),
                names == self.jobs.names(),
                jobs == self.jobs.values(),
                names.len() == jobs.len(),
                zone == self.timezone@,
                self.version == CRON_DOCUMENT_VERSION,
                schedule::zone_known(zone),
                jobs_fault(platform, names, jobs, zone, 0) == jobs_fault(
                    platform,
                    names,
                    jobs,
                    zone,
                    i as int,
                ),
            decreases names.len() - i,
        {
            let id = self.jobs.name_at(i);
            if !validate_job_id(id) {
                return Err(CronError::JobId);
            }
            match self.jobs.value_at(i).validate(platform, &self.timezone) {
                Ok(()) => {},
                Err(error) => {
                    return Err(CronError::Job { id: id.to_owned(), error });
                },
            }
            i += 1;
        }
        Ok(())
    }

    /// Stores a job under a name.
    pub fn upsert(&mut self, platform: Platform, id: &str, job: CronJob) -> (r: Result<(), CronError>)
        requires
            old(self).wf(),
        ensures
            final(self).wf(),
            final(self).version == old(self).version,
            final(self).timezone == old(self).timezone,
            !is_job_id(id@) ==> (r matches Err(e) && e@ == CronFault::JobId),
            is_job_id(id@) ==> (match job_fault(platform, job, old(self).timezone@) {
                Some(f) => r matches Err(e) && e@ == CronFault::NewJob(f),
                None => r is Ok,
            }),
            r is Ok ==> final(self).jobs.map() == old(self).jobs.map().insert(id@, job),
            r is Err ==> *final(self) == *old(self),
    {
        if !validate_job_id(id) {
            return Err(CronError::JobId);
        }
        match job.validate(platform, &self.timezone) {
            Ok(()) => {},
            Err(e) => {
                return Err(CronError::NewJob(e));
            },
        }
        let _ = self.jobs.insert(id, job);
        Ok(())
    }

    /// Stores a job under a name, where the token shows that this change was previewed: `job_bytes`
    /// are the stored bytes of the job, `existing_bytes` those of the job that has the name now.
    pub fn upsert_confirmed(
        &mut self,
        platform: Platform,
        id: &str,
        job: CronJob,
        token: &str,
        job_bytes: &[u8],
        existing_bytes: Option<&[u8]>,
    ) -> (r: Result<(), CronError>)
        requires
            old(self).wf(),
        ensures
            final(self).wf(),
            final(self).version == old(self).version,
            final(self).timezone == old(self).timezone,
            !is_job_id(id@) ==> (r matches Err(e) && e@ == CronFault::JobId),
            is_job_id(id@) ==> (match job_fault(platform, job, old(self).timezone@) {
                Some(f) => r matches Err(e) && e@ == CronFault::NewJob(f),
                None => if token@ == proposal_token_of(
                    id@,
                    job_bytes@,
                    match existing_bytes {
                        Some(e) => Some(e@),
                        None => None,
                    },
                ) {
                    r is Ok
                } else {
                    r matches Err(e) && e@ == CronFault::StalePreview
                },
            }),
            r is Ok ==> final(self).jobs.map() == old(self).jobs.map().insert(id@, job),
            r is Err ==> *final(self) == *old(self),
    {
        if !validate_job_id(id) {
            return Err(CronError::JobId);
        }
        match job.validate(platform, &self.timezone) {
            Ok(()) => {},
            Err(e) => {
                return Err(CronError::NewJob(e));
            },
        }
        if !text::same(token, &proposal_token(id, job_bytes, existing_bytes)) {
            return Err(CronError::StalePreview);
        }
        let _ = self.jobs.insert(id, job);
        Ok(())
    }

    /// Removes a job; tells whether there was one.
    pub fn delete(&mut self, id: &str) -> (removed: bool)
        requires
            old(self).wf(),
        ensures
            final(self).wf(),
            final(self).version == old(self).version,
            final(self).timezone == old(self).timezone,
            removed == old(self).jobs.map().contains_key(id@),
            final(self).jobs.map() == old(self).jobs.map().remove(id@),
            !removed ==> *final(self) == *old(self),
    {
        self.jobs.remove(id).is_some()
    }

    /// Removes a job, where the token shows that the job is still what was listed: `job_bytes` are
    /// its stored bytes.
    pub fn delete_confirmed(&mut self, id: &str, token: &str, job_bytes: &[u8]) -> (r: Result<
        (),
        CronError,
    >)
        requires
            old(self).wf(),
        ensures
            final(self).wf(),
            final(self).version == old(self).version,
            final(self).timezone == old(self).timezone,
            !old(self).jobs.map().contains_key(id@) ==> (r matches Err(e) && e@ == CronFault::MissingJob(id@)),
            old(self).jobs.map().contains_key(id@) && token@ != action_token_of(
                "delete"@,
                id@,
                job_bytes@,
            ) ==> (r matches Err(e) && e@ == CronFault::StaleListing),
            old(self).jobs.map().contains_key(id@) && token@ == action_token_of(
                "delete"@,
                id@,
                job_bytes@,
            ) ==> r is Ok && final(self).jobs.map() == old(self).jobs.map().remove(id@),
            r is Err ==> *final(self) == *old(self),
    {
        if !self.jobs.contains(id) {
            return Err(CronError::MissingJob(id.to_owned()));
        }
        if !text::same(token, &action_token("delete", id, job_bytes)) {
            return Err(CronError::StaleListing);
        }
        let _ = self.jobs.remove(id);
        Ok(())
    }

    /// Pauses a job or lets it run again.
    pub fn set_enabled(&mut self, id: &str, enabled: bool) -> (r: Result<(), CronError>)
        requires
            old(self).wf(),
        ensures
            final(self).wf(),
            final(self).version == old(self).version,
            final(self).timezone == old(self).timezone,
            r is Ok == old(self).jobs.map().contains_key(id@),
            r is Ok ==> final(self).jobs.map() == old(self).jobs.map().insert(
                id@,
                CronJob { enabled, ..old(self).jobs.map()[id@] },
            ),
            r matches Err(e) ==> e@ == CronFault::MissingJob(id@) && *final(self) == *old(self),
    {
        let ghost before = self.jobs.map();
        match self.jobs.remove(id) {
            Some(job) => {
                let changed = CronJob { enabled, ..job };
                let ghost c = changed;
                let _ = self.jobs.insert(id, changed);
                assert(before.remove(id@).insert(id@, c) == before.insert(id@, c));
                Ok(())
            },
            None => Err(CronError::MissingJob(id.to_owned())),
        }
    }

    /// Pauses a job or lets it run again, where the token shows that the job is still what was
    /// listed: `job_bytes` are its stored bytes.
    pub fn set_enabled_confirmed(
        &mut self,
        id: &str,
        enabled: bool,
        token: &str,
        job_bytes: &[u8],
    ) -> (r: Result<(), CronError>)
        requires
            old(self).wf(),
        ensures
            final(self).wf(),
            final(self).version == old(self).version,
            final(self).timezone == old(self).timezone,
            !old(self).jobs.map().contains_key(id@) ==> (r matches Err(e) && e@ == CronFault::MissingJob(id@)),
            old(self).jobs.map().contains_key(id@) && token@ != action_token_of(
                enabled_action(enabled),
                id@,
                job_bytes@,
            ) ==> (r matches Err(e) && e@ == CronFault::StaleListing),
            old(self).jobs.map().contains_key(id@) && token@ == action_token_of(
                enabled_action(enabled),
                id@,
                job_bytes@,
            ) ==> r is Ok && final(self).jobs.map() == old(self).jobs.map().insert(
                id@,
                CronJob { enabled, ..old(self).jobs.map()[id@] },
            ),
            r is Err ==> *final(self) == *old(self),
    {
        if !self.jobs.contains(id) {
            return Err(CronError::MissingJob(id.to_owned()));
        }
        let action = if enabled {
            "enabled:true"
        } else {
            "enabled:false"
        };
        if !text::same(token, &action_token(action, id, job_bytes)) {
            return Err(CronError::StaleListing);
        }
        self.set_enabled(id, enabled)
    }
}

/// What is done when a job is paused or let run again.
pub open spec fn enabled_action(enabled: bool) -> Seq<char> {
    if enabled {
        "enabled:true"@
    } else {
        "enabled:false"@
    }
}

// ---------------------------------------------------------------------------
// Showing jobs

/// A job, as shown.
#[derive(Debug)]
pub struct CronJobView {
    pub id: String,
    pub job: CronJob,
    pub description: String,
    pub next_occurrences: Vec<i128>,
    pub state: CronJobState,
}

/// What is wrong with showing the jobs from position `i` on, where anything is: the first fault
/// counts.
pub open spec fn show_fault(jobs: Seq<CronJob>, zone: Seq<char>, now: int, i: int) -> Option<
    OccurrenceFault,
>
    decreases jobs.len() - i,
{
    if i >= jobs.len() {
        None
    } else {
        let own = zone_of(jobs[i], zone);
        match schedule::description_of(jobs[i].schedule@, own) {
            Err(e) => Some(e),
            Ok(_) => match schedule::next_of(
                jobs[i].schedule@,
                own,
                now,
                NEXT_OCCURRENCE_PREVIEW_COUNT as nat,
            ) {
                Err(e) => Some(e),
                Ok(_) => show_fault(jobs, zone, now, i + 1),
            },
        }
    }
}

/// Whether a view shows a job.
pub open spec fn shows(
    view: CronJobView,
    id: Seq<char>,
    job: CronJob,
    zone: Seq<char>,
    now: int,
    states: Map<Seq<char>, JobStateView>,
) -> bool {
    let own = zone_of(job, zone);
    &&& view.id@ == id
    &&& view.job == job
    &&& schedule::description_of(job.schedule@, own) == Ok::<Seq<char>, OccurrenceFault>(
        view.description@,
    )
    &&& schedule::next_of(job.schedule@, own, now, NEXT_OCCURRENCE_PREVIEW_COUNT as nat) == Ok::<
        Seq<int>,
        OccurrenceFault,
    >(schedule::instants(view.next_occurrences@))
    &&& view.state@ == state_of(states, id)
}

/// The jobs of a document as shown at `now`, in the order of their names.
pub fn job_views(document: &CronDocument, state: &CronRuntimeState, now: i128) -> (r: Result<
    Vec<CronJobView>,
    OccurrenceError,
>)
    requires
        document.wf(),
        state.wf(),
    ensures
        match r {
            Ok(v) => {
                &&& show_fault(document.jobs.values(), document.timezone@, now as int, 0) is None
                &&& v@.len() == document.jobs.names().len()
                &&& forall|i: int|
                    0 <= i < v@.len() ==> shows(
                        #[trigger] v@[i],
                        document.jobs.names()[i],
                        document.jobs.values()[i],
                        document.timezone@,
                        now as int,
                        state_views(state.jobs.map()),
                    )
            },
            Err(e) => show_fault(document.jobs.values(), document.timezone@, now as int, 0)
                == Some(e@),
        },
{
    let ghost names = document.jobs.names();
    let ghost jobs = document.jobs.values();
    let ghost zone = document.timezone@;
    let ghost states = state_views(state.jobs.map());
    let mut v: Vec<CronJobView> = Vec::new();
    let mut i: usize = 0;
    while i < document.jobs.len()
        invariant
            i <= names.len(),
            v@.len() == i,
            names == document.jobs.names(),
            jobs == document.jobs.values(),
            zone == document.timezone@,
            states == state_views(state.jobs.map()),
            names.len() == jobs.len(),
            state.wf(),
            show_fault(jobs, zone, now as int, 0) == show_fault(jobs, zone, now as int, i as int),
            forall|j: int|
                0 <= j < i ==> shows(
                    #[trigger] v@[j],
                    names[j],
                    jobs[j],
                    zone,
                    now as int,
                    states,
                ),
        decreases names.len() - i,
    {
        let id = document.jobs.name_at(i);
        let job = document.jobs.value_at(i);
        let description = match job.description(&document.timezone) {
            Ok(d) => d,
            Err(e) => {
                return Err(e);
            },
        };
        let next = match next_occurrences(
            job,
            &document.timezone,
            now,
            NEXT_OCCURRENCE_PREVIEW_COUNT,
        ) {
            Ok(n) => n,
            Err(e) => {
                return Err(e);
            },
        };
        let known = match state.jobs.get(id) {
            Some(s) => s.copy(),
            None => CronJobState::new(),
        };
        v.push(
            CronJobView {
                id: id.to_owned(),
                job: job.clone(),
                description,
                next_occurrences: next,
                state: known,
            },
        );
        i += 1;
    }
    Ok(v)
}

// ---------------------------------------------------------------------------
// What always holds

/// Whether every job of a map may be stored.
pub open spec fn all_valid(platform: Platform, jobs: Map<Seq<char>, CronJob>, zone: Seq<char>) -> bool {
    forall|k: Seq<char>|
        jobs.contains_key(k) ==> is_job_id(k) && job_fault(platform, #[trigger] jobs[k], zone) is None
}

/// Whether a job may be stored under a name.
spec fn may_stand(platform: Platform, id: Seq<char>, job: CronJob, zone: Seq<char>) -> bool {
    is_job_id(id) && job_fault(platform, job, zone) is None
}

proof fn lemma_jobs_fault(
    platform: Platform,
    names: Seq<Seq<char>>,
    jobs: Seq<CronJob>,
    zone: Seq<char>,
    i: int,
)
    requires
        0 <= i <= names.len(),
    ensures
        jobs_fault(platform, names, jobs, zone, i) is None <==> forall|j: int|
            i <= j < names.len() ==> may_stand(platform, #[trigger] names[j], jobs[j], zone),
    decreases names.len() - i,
{
    if i < names.len() {
        lemma_jobs_fault(platform, names, jobs, zone, i + 1);
        assert(jobs_fault(platform, names, jobs, zone, i) is None <==> may_stand(
            platform,
            names[i],
            jobs[i],
            zone,
        ) && jobs_fault(platform, names, jobs, zone, i + 1) is None);
    }
}

/// A document can be stored exactly when its version and its time zone are known and each of its
/// jobs can be.
pub proof fn a_document_is_as_valid_as_its_jobs(platform: Platform, d: CronDocument)
    requires
        d.wf(),
    ensures
        document_fault(platform, d) is None <==> d.version == CRON_DOCUMENT_VERSION
            && schedule::zone_known(d.timezone@) && all_valid(platform, d.jobs.map(), d.timezone@),
{
    let names = d.jobs.names();
    let jobs = d.jobs.values();
    let map = d.jobs.map();
    lemma_jobs_fault(platform, names, jobs, d.timezone@, 0);
    table::table_entries_are_its_map(d.jobs, Seq::empty());
    if all_valid(platform, map, d.timezone@) {
        assert forall|j: int| 0 <= j < names.len() implies is_job_id(#[trigger] names[j])
            && job_fault(platform, jobs[j], d.timezone@) is None by {
            assert(map.contains_key(names[j]));
            assert(map[names[j]] == jobs[j]);
        }
    }
    if jobs_fault(platform, names, jobs, d.timezone@, 0) is None {
        assert forall|k: Seq<char>| map.contains_key(k) implies is_job_id(k) && job_fault(
            platform,
            #[trigger] map[k],
            d.timezone@,
        ) is None by {
            table::lemma_place(names, k, 0);
            let p = table::place(names, k, 0);
            assert(is_job_id(names[p]));
        }
    }
}

/// Storing a job that may be stored, removing one, and pausing one or letting it run again leave a
/// document that can be stored.
pub proof fn changes_keep_a_document_valid(
    platform: Platform,
    before: CronDocument,
    after: CronDocument,
    id: Seq<char>,
    job: CronJob,
    enabled: bool,
)
    requires
        before.wf(),
        after.wf(),
        document_fault(platform, before) is None,
        after.version == before.version,
        after.timezone == before.timezone,
        ({
            ||| is_job_id(id) && job_fault(platform, job, before.timezone@) is None && after.jobs.map()
                == before.jobs.map().insert(id, job)
            ||| after.jobs.map() == before.jobs.map().remove(id)
            ||| before.jobs.map().contains_key(id) && after.jobs.map() == before.jobs.map().insert(
                id,
                CronJob { enabled, ..before.jobs.map()[id] },
            )
        }),
    ensures
        document_fault(platform, after) is None,
{
    a_document_is_as_valid_as_its_jobs(platform, before);
    a_document_is_as_valid_as_its_jobs(platform, after);
    let old_jobs = before.jobs.map();
    let new_jobs = after.jobs.map();
    assert forall|k: Seq<char>| new_jobs.contains_key(k) implies is_job_id(k) && job_fault(
        platform,
        #[trigger] new_jobs[k],
        after.timezone@,
    ) is None by {
        if old_jobs.contains_key(k) {
            assert(job_fault(platform, old_jobs[k], before.timezone@) is None);
        }
    }
}

// ---------------------------------------------------------------------------
// Where the jobs are kept

/// What has to be resolved to know where the jobs are kept.
#[derive(Debug)]
pub enum PlaceAction {
    /// The file itself.
    ResolveFile,
    /// The directory that the file will be in.
    ResolveParent,
    /// That directory, which has to be made first.
    MakeParent(String),
}

/// What has to be resolved to know where the jobs are kept, of a file that may not be there.
pub fn schedule_place(
    platform: Platform,
    exists: bool,
    parent: &str,
    parent_exists: bool,
    current_directory: &str,
) -> (r: PlaceAction)
    ensures
        match r {
            PlaceAction::ResolveFile => exists,
            PlaceAction::ResolveParent => !exists && parent_exists,
            PlaceAction::MakeParent(d) => !exists && !parent_exists && d@ == paths::joined(
                platform,
                current_directory@,
                parent@,
            ),
        },
{
    if exists {
        PlaceAction::ResolveFile
    } else if parent_exists {
        PlaceAction::ResolveParent
    } else {
        PlaceAction::MakeParent(paths::join(platform, current_directory, parent))
    }
}

/// Where a file is kept whose directory was resolved.
pub fn resolved_schedule_path(platform: Platform, directory: &str, path: &str) -> (r: Result<
    String,
    String,
>)
    ensures
        match paths::name_of(platform, path@) {
            Some(name) => r matches Ok(p) && p@ == paths::joined(platform, directory@, name),
            None => r matches Err(e) && e@ == "cron file path must include a file name"@,
        },
{
    match paths::file_name(platform, path) {
        Some(name) => Ok(paths::join(platform, directory, &name)),
        None => Err("cron file path must include a file name".to_owned()),
    }
}

/// Whether a text says anything.
pub open spec fn says_something(s: Seq<char>) -> bool {
    exists|i: int| 0 <= i < s.len() && !text::is_white(#[trigger] s[i])
}

/// A job can be stored exactly where its schedule can be read, the time zone that it names, or else
/// that of the document, is known, it has a prompt, an absolute path of a project, a provider and a
/// model of its own choice, and a limit on its time, if any, that is more than none.
pub proof fn a_job_is_valid_where_all_of_it_is(
    platform: Platform,
    job: CronJob,
    default_timezone: Seq<char>,
)
    ensures
        job_fault(platform, job, default_timezone) is None <==> {
            &&& schedule::read_schedule(job.schedule@) is Ok
            &&& job.timezone is Some ==> schedule::zone_known(job.timezone->0@)
            &&& job.timezone is None ==> schedule::zone_known(default_timezone)
            &&& says_something(job.prompt@)
            &&& paths::absolute(platform, job.project@)
            &&& says_something(job.provider@)
            &&& says_something(job.model@)
            &&& job.model@ != "auto"@
            &&& job.timeout_seconds is Some ==> job.timeout_seconds->0 > 0
        },
{
    lemma_says_something(job.prompt@);
    lemma_says_something(job.provider@);
    lemma_says_something(job.model@);
}

proof fn lemma_says_something(s: Seq<char>)
    ensures
        says_something(s) <==> text::trimmed(s).len() > 0,
{
    text::blank_text_is_white_space(s);
}

/// The name of a job is made of ASCII letters, digits, hyphens and underscores, and of at least one.
pub proof fn job_names_are_plain(id: Seq<char>)
    ensures
        is_job_id(id) <==> id.len() > 0 && forall|i: int|
            0 <= i < id.len() ==> {
                let n = #[trigger] id[i] as u32;
                97 <= n <= 122 || 65 <= n <= 90 || 48 <= n <= 57 || id[i] == '-' || id[i] == '_'
            },
{
    assert('a' as u32 == 97 && 'z' as u32 == 122 && 'A' as u32 == 65 && 'Z' as u32 == 90);
    assert('0' as u32 == 48 && '9' as u32 == 57);
    if is_job_id(id) {
        assert forall|i: int| 0 <= i < id.len() implies {
            let n = #[trigger] id[i] as u32;
            97 <= n <= 122 || 65 <= n <= 90 || 48 <= n <= 57 || id[i] == '-' || id[i] == '_'
        } by {
            assert(is_job_char(id[i]));
        }
    }
}

/// What confirms an action stands for the job as it is stored: bytes of another job confirm nothing of
/// this one, and what is proposed in place of a job is not confirmed in place of another.
pub proof fn what_is_confirmed_is_the_job_itself(
    action: Seq<char>,
    id: Seq<char>,
    one: Seq<u8>,
    other: Seq<u8>,
)
    requires
        one != other,
    ensures
        action_bytes(action, id, one) != action_bytes(action, id, other),
{
    let head = vstd::utf8::encode_utf8(action) + seq![0u8] + vstd::utf8::encode_utf8(id) + seq![0u8];
    let a = action_bytes(action, id, one);
    let b = action_bytes(action, id, other);
    assert(a.skip(head.len() as int) == one);
    assert(b.skip(head.len() as int) == other);
}

/// To pause a job and to let it run again are confirmed apart.
pub proof fn pausing_is_not_resuming()
    ensures
        enabled_action(true) != enabled_action(false),
{
    reveal_strlit("enabled:true");
    reveal_strlit("enabled:false");
    assert("enabled:true"@.len() == 12 && "enabled:false"@.len() == 13);
}

/// A job has its own zone, and that of the document where it names none.
pub proof fn a_job_has_its_own_zone(job: CronJob, zone: Seq<char>)
    ensures
        job.timezone matches Some(z) ==> zone_of(job, zone) == z@,
        job.timezone is None ==> zone_of(job, zone) == zone,
{
}

/// A job is shown as it stands, in words, with its next times in its zone and what is known of its
/// runs; nothing is known of a job that nothing is stored of.
pub proof fn a_job_is_shown_as_it_stands(
    view: CronJobView,
    id: Seq<char>,
    job: CronJob,
    zone: Seq<char>,
    now: int,
    states: Map<Seq<char>, JobStateView>,
)
    requires
        shows(view, id, job, zone, now, states),
    ensures
        view.id@ == id,
        view.job == job,
        schedule::description_of(
            job.schedule@,
            match job.timezone {
                Some(z) => z@,
                None => zone,
            },
        ) == Ok::<Seq<char>, OccurrenceFault>(view.description@),
        states.contains_key(id) ==> view.state@ == states[id],
        !states.contains_key(id) ==> view.state@.occurrences.len() == 0
            && view.state@.one_time_status is None && view.state@.next_sequence == 0,
        schedule::read_schedule(job.schedule@) matches Ok(schedule::ScheduleView::At(at))
            ==> schedule::instants(view.next_occurrences@) == (if at > now {
            seq![at]
        } else {
            Seq::<int>::empty()
        }),
{
}

/// Jobs can be shown exactly where each of them can.
pub proof fn jobs_are_shown_where_each_is(jobs: Seq<CronJob>, zone: Seq<char>, now: int, from: int)
    requires
        0 <= from <= jobs.len(),
    ensures
        show_fault(jobs, zone, now, from) is None <==> forall|i: int|
            from <= i < jobs.len() ==> {
                let own = zone_of(#[trigger] jobs[i], zone);
                &&& schedule::description_of(jobs[i].schedule@, own) is Ok
                &&& schedule::next_of(
                    jobs[i].schedule@,
                    own,
                    now,
                    NEXT_OCCURRENCE_PREVIEW_COUNT as nat,
                ) is Ok
            },
    decreases jobs.len() - from,
{
    if from < jobs.len() {
        jobs_are_shown_where_each_is(jobs, zone, now, from + 1);
    }
}

/// Pausing or resuming a job changes whether it is enabled, and nothing else of it or of another.
pub proof fn pausing_touches_one_job(
    d: &mut CronDocument,
    id: &str,
    enabled: bool,
    r: Result<(), CronError>,
    other: Seq<char>,
)
    requires
        call_ensures(CronDocument::set_enabled, (d, id, enabled), r),
        old(d).wf(),
        other != id@,
    ensures
        r is Ok <==> old(d).jobs.map().contains_key(id@),
        r is Ok ==> final(d).jobs.map()[id@].enabled == enabled && final(d).jobs.map()[id@].schedule
            == old(d).jobs.map()[id@].schedule && final(d).jobs.map()[id@].prompt
            == old(d).jobs.map()[id@].prompt && final(d).jobs.map()[id@].project
            == old(d).jobs.map()[id@].project,
        final(d).jobs.map().contains_key(other) == old(d).jobs.map().contains_key(other),
        old(d).jobs.map().contains_key(other) ==> final(d).jobs.map()[other]
            == old(d).jobs.map()[other],
        final(d).timezone == old(d).timezone,
{
}

/// A job that is deleted is gone, and every other one stays.
pub proof fn deleting_takes_one_job(
    d: &mut CronDocument,
    id: &str,
    removed: bool,
    other: Seq<char>,
)
    requires
        call_ensures(CronDocument::delete, (d, id), removed),
        old(d).wf(),
        other != id@,
    ensures
        removed <==> old(d).jobs.map().contains_key(id@),
        !final(d).jobs.map().contains_key(id@),
        final(d).jobs.map().contains_key(other) == old(d).jobs.map().contains_key(other),
        old(d).jobs.map().contains_key(other) ==> final(d).jobs.map()[other]
            == old(d).jobs.map()[other],
{
}

/// A sound job is stored under its name in place of what was there; a faulty one changes nothing, and
/// neither touches another job.
pub proof fn storing_touches_one_job(
    d: &mut CronDocument,
    platform: Platform,
    id: &str,
    job: CronJob,
    r: Result<(), CronError>,
    other: Seq<char>,
)
    requires
        call_ensures(CronDocument::upsert, (d, platform, id, job), r),
        old(d).wf(),
        other != id@,
    ensures
        r is Ok <==> is_job_id(id@) && job_fault(platform, job, old(d).timezone@) is None,
        r is Ok ==> final(d).jobs.map().contains_key(id@) && final(d).jobs.map()[id@] == job,
        r is Err ==> *final(d) == *old(d),
        final(d).jobs.map().contains_key(other) == old(d).jobs.map().contains_key(other),
        old(d).jobs.map().contains_key(other) ==> final(d).jobs.map()[other]
            == old(d).jobs.map()[other],
{
}

/// Nothing is changed without the token of what was seen.
pub proof fn a_stale_token_changes_nothing(
    d: &mut CronDocument,
    id: &str,
    token: &str,
    job_bytes: &[u8],
    r: Result<(), CronError>,
)
    requires
        call_ensures(CronDocument::delete_confirmed, (d, id, token, job_bytes), r),
        old(d).wf(),
    ensures
        r is Ok <==> old(d).jobs.map().contains_key(id@) && token@ == hash::sha256_hex(
            action_bytes("delete"@, id@, job_bytes@),
        ),
        r is Err ==> *final(d) == *old(d),
        r is Ok ==> !final(d).jobs.map().contains_key(id@),
{
}

} // verus!
