//! What the daemon does with scheduled jobs: starting, queueing and finishing their occurrences.
use crate::cron;
use crate::cron::{
    CronDocument, CronJob, CronJobState, CronOccurrence, CronOccurrenceStatus, CronRuntimeState,
    JobStateView, OccurrenceView, OneTimeStatus, OverlapPolicy,
};
use crate::message;
use crate::schedule;
use crate::schedule::{OccurrenceError, OccurrenceFault, ParsedSchedule, ScheduleError, ScheduleView};
use crate::sort;
use crate::sort::ByText;
use crate::table::Table;
use crate::text;
use vstd::prelude::*;
use vstd::string::*;

verus! {

/// What the daemon knows: what is stored, which jobs run, and which occurrence of a running job
/// waits.
#[derive(Debug)]
pub struct Daemon {
    pub state: CronRuntimeState,
    pub active: Table<()>,
    pub queued: Table<u64>,
}

/// What the daemon knows.
#[verifier::ext_equal]
pub struct DaemonView {
    pub version: u32,
    pub jobs: Map<Seq<char>, JobStateView>,
    pub active: Set<Seq<char>>,
    pub queued: Map<Seq<char>, u64>,
}

/// An occurrence that is to be executed now.
#[derive(Debug)]
pub struct JobStart {
    pub id: String,
    pub sequence: u64,
    pub scheduled_at: i128,
}

/// An occurrence that is to be executed now.
pub struct StartView {
    pub id: Seq<char>,
    pub sequence: u64,
    pub scheduled_at: i128,
}

impl View for JobStart {
    type V = StartView;

    open spec fn view(&self) -> StartView {
        StartView { id: self.id@, sequence: self.sequence, scheduled_at: self.scheduled_at }
    }
}

/// Occurrences that are to be executed now.
pub open spec fn start_views(v: Seq<JobStart>) -> Seq<StartView> {
    Seq::new(v.len(), |i: int| v[i]@)
}

/// How the execution of an occurrence ended.
#[derive(Debug)]
pub struct JobCompletion {
    pub job_id: String,
    pub sequence: u64,
    pub status: CronOccurrenceStatus,
    pub session_id: Option<u128>,
    pub last_message: Option<String>,
    pub error: Option<String>,
}

/// A request to run a job now.
#[derive(Debug)]
pub struct ManualRunRequest {
    pub id: String,
    pub requested_at: i128,
}

impl Daemon {
    /// Whether the tables are sound.
    pub open spec fn wf(self) -> bool {
        self.state.wf() && self.active.wf() && self.queued.wf()
    }

    /// The daemon as it starts.
    pub fn new(state: CronRuntimeState) -> (d: Daemon)
        requires
            state.wf(),
        ensures
            d.wf(),
            d.state == state,
            d@ == (DaemonView {
                version: state.version,
                jobs: cron::state_views(state.jobs.map()),
                active: Set::empty(),
                queued: Map::empty(),
            }),
    {
        let d = Daemon { state, active: Table::new(), queued: Table::new() };
        assert(d@.active == Set::<Seq<char>>::empty());
        d
    }
}

impl View for Daemon {
    type V = DaemonView;

    open spec fn view(&self) -> DaemonView {
        DaemonView {
            version: self.state.version,
            jobs: cron::state_views(self.state.jobs.map()),
            active: self.active.map().dom(),
            queued: self.queued.map(),
        }
    }
}

// ---------------------------------------------------------------------------
// Scheduling an occurrence

/// The number that the next occurrence gets.
pub open spec fn next_number(s: JobStateView) -> u64 {
    if s.next_sequence == 0 {
        1
    } else {
        s.next_sequence
    }
}

/// The number that follows a number.
pub open spec fn number_after(n: u64) -> u64 {
    if n == u64::MAX {
        n
    } else {
        (n + 1) as u64
    }
}

/// An occurrence that has not begun.
pub open spec fn waiting(sequence: u64, scheduled_at: i128, manual: bool) -> OccurrenceView {
    OccurrenceView {
        sequence,
        scheduled_at,
        status: CronOccurrenceStatus::Queued,
        started_at: None,
        completed_at: None,
        session_id: None,
        last_message: None,
        error: None,
        manual,
    }
}

/// An occurrence that has begun at `now`.
pub open spec fn running(sequence: u64, scheduled_at: i128, manual: bool, now: i128) -> OccurrenceView {
    OccurrenceView {
        status: CronOccurrenceStatus::Running,
        started_at: Some(now),
        ..waiting(sequence, scheduled_at, manual)
    }
}

/// The occurrence, skipped at `now`.
pub open spec fn skipped(o: OccurrenceView, now: i128, why: Seq<char>) -> OccurrenceView {
    OccurrenceView {
        status: CronOccurrenceStatus::SkippedOverlap,
        completed_at: Some(now),
        error: Some(why),
        ..o
    }
}

/// The occurrences, the first with the number skipped at `now`.
pub open spec fn with_skipped(v: Seq<OccurrenceView>, sequence: u64, now: i128, why: Seq<char>) -> Seq<
    OccurrenceView,
> {
    let p = cron::occurrence_at(v, sequence, 0);
    if p < v.len() {
        v.update(p, skipped(v[p], now, why))
    } else {
        v
    }
}

/// The occurrences of a job after one more is scheduled. One that waits gives way to it.
pub open spec fn occurrences_with(
    s: JobStateView,
    is_active: bool,
    queued: Option<u64>,
    overlap: OverlapPolicy,
    scheduled_at: i128,
    manual: bool,
    now: i128,
) -> Seq<OccurrenceView> {
    let sequence = next_number(s);
    if !is_active {
        s.occurrences.push(running(sequence, scheduled_at, manual, now))
    } else if overlap == OverlapPolicy::Skip {
        s.occurrences.push(
            skipped(
                waiting(sequence, scheduled_at, manual),
                now,
                "another occurrence was still running"@,
            ),
        )
    } else {
        (match queued {
            Some(previous) => with_skipped(
                s.occurrences,
                previous,
                now,
                "replaced by a newer queued occurrence"@,
            ),
            None => s.occurrences,
        }).push(waiting(sequence, scheduled_at, manual))
    }
}

/// The daemon after an occurrence of a job is scheduled.
pub open spec fn scheduled(
    d: DaemonView,
    id: Seq<char>,
    overlap: OverlapPolicy,
    scheduled_at: i128,
    manual: bool,
    now: i128,
) -> DaemonView {
    let s = cron::state_of(d.jobs, id);
    let is_active = d.active.contains(id);
    let queued = if d.queued.contains_key(id) {
        Some(d.queued[id])
    } else {
        None
    };
    DaemonView {
        version: d.version,
        jobs: d.jobs.insert(
            id,
            JobStateView {
                next_sequence: number_after(next_number(s)),
                one_time_status: s.one_time_status,
                occurrences: occurrences_with(
                    s,
                    is_active,
                    queued,
                    overlap,
                    scheduled_at,
                    manual,
                    now,
                ),
            },
        ),
        active: d.active.insert(id),
        queued: if is_active && overlap == OverlapPolicy::Queue {
            d.queued.insert(id, next_number(s))
        } else {
            d.queued
        },
    }
}

fn new_occurrence(sequence: u64, scheduled_at: i128, manual: bool) -> (o: CronOccurrence)
    ensures
        o@ == waiting(sequence, scheduled_at, manual),
{
    CronOccurrence {
        sequence,
        scheduled_at,
        status: CronOccurrenceStatus::Queued,
        started_at: None,
        completed_at: None,
        session_id: None,
        last_message: None,
        error: None,
        manual,
    }
}

fn number_of_next(s: &CronJobState) -> (n: u64)
    ensures
        n == next_number(s@),
{
    if s.next_sequence == 0 {
        1
    } else {
        s.next_sequence
    }
}

fn following(n: u64) -> (r: u64)
    ensures
        r == number_after(n),
{
    if n == u64::MAX {
        n
    } else {
        n + 1
    }
}

fn skip_numbered(s: &mut CronJobState, sequence: u64, now: i128, why: &str)
    ensures
        final(s)@ == (JobStateView {
            occurrences: with_skipped(old(s)@.occurrences, sequence, now, why@),
            ..old(s)@
        }),
{
    let ghost before = s@;
    let i: usize = s.position(sequence);
    if i < s.occurrences.len() {
        s.occurrences[i].status = CronOccurrenceStatus::SkippedOverlap;
        s.occurrences[i].completed_at = Some(now);
        s.occurrences[i].error = Some(why.to_owned());
        assert(s@.occurrences == with_skipped(before.occurrences, sequence, now, why@));
    }
}

impl Daemon {
    /// Schedules an occurrence of a job, at `now`; tells its number and whether it is to be
    /// executed now.
    pub fn schedule_occurrence(
        &mut self,
        id: &str,
        overlap: OverlapPolicy,
        scheduled_at: i128,
        manual: bool,
        now: i128,
    ) -> (r: (u64, bool))
        requires
            old(self).wf(),
        ensures
            final(self).wf(),
            final(self).state.version == old(self).state.version,
            final(self)@ == scheduled(old(self)@, id@, overlap, scheduled_at, manual, now),
            r.0 == next_number(cron::state_of(old(self)@.jobs, id@)),
            r.1 == !old(self)@.active.contains(id@),
    {
        let ghost before = self@;
        let ghost wanted = scheduled(before, id@, overlap, scheduled_at, manual, now);
        let mut s = self.state.take(id);
        let sequence: u64 = number_of_next(&s);
        s.next_sequence = following(sequence);
        let mut occurrence = new_occurrence(sequence, scheduled_at, manual);
        let is_active = self.active.contains(id);
        if is_active {
            match overlap {
                OverlapPolicy::Skip => {
                    occurrence.status = CronOccurrenceStatus::SkippedOverlap;
                    occurrence.completed_at = Some(now);
                    occurrence.error = Some("another occurrence was still running".to_owned());
                },
                OverlapPolicy::Queue => {
                    let previous = self.queued.insert(id, sequence);
                    if let Some(p) = previous {
                        skip_numbered(
                            &mut s,
                            p,
                            now,
                            "replaced by a newer queued occurrence",
                        );
                    }
                },
            }
        } else {
            let _ = self.active.insert(id, ());
            occurrence.status = CronOccurrenceStatus::Running;
            occurrence.started_at = Some(now);
        }
        s.add_occurrence(occurrence);
        self.state.put(id, s);
        assert(self@.jobs == wanted.jobs);
        assert(self@.active == wanted.active);
        (sequence, !is_active)
    }
}

// ---------------------------------------------------------------------------
// Finishing an occurrence

/// How a job that runs only once stands after its occurrence ended so.
pub fn one_time_status_for(status: CronOccurrenceStatus) -> (r: OneTimeStatus)
    ensures
        r == one_time_of(status),
{
    match status {
        CronOccurrenceStatus::Completed => OneTimeStatus::Completed,
        CronOccurrenceStatus::TimedOut => OneTimeStatus::TimedOut,
        CronOccurrenceStatus::Failed => OneTimeStatus::Failed,
        _ => OneTimeStatus::Pending,
    }
}

/// How a job that runs only once stands after its occurrence ended so.
pub open spec fn one_time_of(status: CronOccurrenceStatus) -> OneTimeStatus {
    match status {
        CronOccurrenceStatus::Completed => OneTimeStatus::Completed,
        CronOccurrenceStatus::TimedOut => OneTimeStatus::TimedOut,
        CronOccurrenceStatus::Failed => OneTimeStatus::Failed,
        _ => OneTimeStatus::Pending,
    }
}

/// Whether a job of the current document runs only once at a given instant.
pub open spec fn runs_once(job: Option<CronJob>) -> bool {
    job matches Some(j) && schedule::read_schedule(j.schedule@) matches Ok(ScheduleView::At(_))
}

/// What is known of a job after an execution of it ended; `job` is the job as it is stored now.
pub open spec fn completed(
    s: JobStateView,
    completion: JobCompletion,
    job: Option<CronJob>,
    now: i128,
) -> JobStateView {
    let p = cron::occurrence_at(s.occurrences, completion.sequence, 0);
    JobStateView {
        next_sequence: s.next_sequence,
        one_time_status: if runs_once(job) {
            Some(one_time_of(completion.status))
        } else {
            s.one_time_status
        },
        occurrences: if p < s.occurrences.len() {
            s.occurrences.update(
                p,
                OccurrenceView {
                    status: completion.status,
                    completed_at: Some(now),
                    session_id: completion.session_id,
                    last_message: message::opt_view(completion.last_message),
                    error: message::opt_view(completion.error),
                    ..s.occurrences[p]
                },
            )
        } else {
            s.occurrences
        },
    }
}

/// The number of the occurrence that leaves the queue when an execution of its job ends, where
/// there is one.
pub open spec fn leaving(d: DaemonView, s: JobStateView, id: Seq<char>) -> Option<u64> {
    if d.queued.contains_key(id) && cron::occurrence_at(s.occurrences, d.queued[id], 0)
        < s.occurrences.len() {
        Some(d.queued[id])
    } else {
        None
    }
}

/// Whether a job of the current document may run.
pub open spec fn may_run(job: Option<CronJob>) -> bool {
    job matches Some(j) && j.enabled
}

/// The daemon after an execution ended. The occurrence that waits begins where the job may still
/// run, and is skipped where not.
pub open spec fn finished(
    d: DaemonView,
    completion: JobCompletion,
    job: Option<CronJob>,
    now: i128,
) -> DaemonView {
    let id = completion.job_id@;
    let s = completed(cron::state_of(d.jobs, id), completion, job, now);
    let resting = d.active.remove(id);
    match leaving(d, s, id) {
        None => DaemonView {
            version: d.version,
            jobs: d.jobs.insert(id, s),
            active: resting,
            queued: d.queued.remove(id),
        },
        Some(sequence) => {
            let p = cron::occurrence_at(s.occurrences, sequence, 0);
            DaemonView {
                version: d.version,
                jobs: d.jobs.insert(
                    id,
                    JobStateView {
                        occurrences: if may_run(job) {
                            s.occurrences.update(
                                p,
                                OccurrenceView {
                                    status: CronOccurrenceStatus::Running,
                                    started_at: Some(now),
                                    ..s.occurrences[p]
                                },
                            )
                        } else {
                            with_skipped(
                                s.occurrences,
                                sequence,
                                now,
                                "job was deleted, paused, or unavailable before queued execution began"@,
                            )
                        },
                        ..s
                    },
                ),
                active: if may_run(job) {
                    resting.insert(id)
                } else {
                    resting
                },
                queued: d.queued.remove(id),
            }
        },
    }
}

/// The occurrence that begins when an execution ends, where one does.
pub open spec fn follow_up(
    d: DaemonView,
    completion: JobCompletion,
    job: Option<CronJob>,
    now: i128,
) -> Option<StartView> {
    let id = completion.job_id@;
    let s = completed(cron::state_of(d.jobs, id), completion, job, now);
    match leaving(d, s, id) {
        Some(sequence) if may_run(job) => Some(
            StartView {
                id,
                sequence,
                scheduled_at: s.occurrences[cron::occurrence_at(
                    s.occurrences,
                    sequence,
                    0,
                )].scheduled_at,
            },
        ),
        _ => None,
    }
}

fn is_one_time(job: Option<&CronJob>) -> (r: bool)
    ensures
        r == runs_once(
            match job {
                Some(j) => Some(*j),
                None => None,
            },
        ),
{
    match job {
        Some(j) => match schedule::parse_schedule(&j.schedule) {
            Ok(ParsedSchedule::At(_)) => true,
            _ => false,
        },
        None => false,
    }
}

/// The job that an option refers to.
pub open spec fn job_of(job: Option<&CronJob>) -> Option<CronJob> {
    match job {
        Some(j) => Some(*j),
        None => None,
    }
}

fn record_completion(
    s: &mut CronJobState,
    completion: &JobCompletion,
    job: Option<&CronJob>,
    now: i128,
)
    ensures
        final(s)@ == completed(old(s)@, *completion, job_of(job), now),
{
    let ghost before = s@;
    let i: usize = s.position(completion.sequence);
    if i < s.occurrences.len() {
        s.occurrences[i].status = completion.status;
        s.occurrences[i].completed_at = Some(now);
        s.occurrences[i].session_id = completion.session_id;
        s.occurrences[i].last_message = message::copy_text(&completion.last_message);
        s.occurrences[i].error = message::copy_text(&completion.error);
    }
    if is_one_time(job) {
        s.one_time_status = Some(one_time_status_for(completion.status));
    }
    assert(s@.occurrences == completed(before, *completion, job_of(job), now).occurrences);
}

impl CronRuntimeState {
    /// Records how an execution ended that ran beside the daemon.
    pub fn finish_direct_run(&mut self, completion: &JobCompletion, job: Option<&CronJob>, now: i128)
        requires
            old(self).wf(),
        ensures
            final(self).wf(),
            final(self).version == old(self).version,
            cron::state_views(final(self).jobs.map()) == cron::state_views(
                old(self).jobs.map(),
            ).insert(
                completion.job_id@,
                completed(
                    cron::state_of(cron::state_views(old(self).jobs.map()), completion.job_id@),
                    *completion,
                    job_of(job),
                    now,
                ),
            ),
    {
        let ghost before = cron::state_views(self.jobs.map());
        let mut s = self.take(&completion.job_id);
        record_completion(&mut s, completion, job, now);
        let ghost v = s@;
        self.put(&completion.job_id, s);
        assert(before.remove(completion.job_id@).insert(completion.job_id@, v) == before.insert(
            completion.job_id@,
            v,
        ));
    }
}

impl Daemon {
    /// Records how an execution ended; `job` is the job as it is stored now. Gives the occurrence
    /// that is to be executed next, where one waits.
    pub fn finish_occurrence(
        &mut self,
        completion: &JobCompletion,
        job: Option<&CronJob>,
        now: i128,
    ) -> (r: Option<JobStart>)
        requires
            old(self).wf(),
        ensures
            final(self).wf(),
            final(self).state.version == old(self).state.version,
            final(self)@ == finished(old(self)@, *completion, job_of(job), now),
            match r {
                Some(start) => follow_up(old(self)@, *completion, job_of(job), now) == Some(
                    start@,
                ),
                None => follow_up(old(self)@, *completion, job_of(job), now) is None,
            },
    {
        let ghost before = self@;
        let ghost wanted = finished(before, *completion, job_of(job), now);
        let id = completion.job_id.as_str();
        let mut s = self.state.take(id);
        record_completion(&mut s, completion, job, now);
        let ghost done = s@;
        let _ = self.active.remove(id);
        assert(self@.active == before.active.remove(id@));
        let waiting = self.queued.remove(id);
        let mut start: Option<JobStart> = None;
        if let Some(sequence) = waiting {
            let i: usize = s.position(sequence);
            if i < s.occurrences.len() {
                let enabled = match job {
                    Some(j) => j.enabled,
                    None => false,
                };
                if enabled {
                    s.occurrences[i].status = CronOccurrenceStatus::Running;
                    s.occurrences[i].started_at = Some(now);
                    let _ = self.active.insert(id, ());
                    assert(s@.occurrences == done.occurrences.update(
                        i as int,
                        OccurrenceView {
                            status: CronOccurrenceStatus::Running,
                            started_at: Some(now),
                            ..done.occurrences[i as int]
                        },
                    ));
                    start = Some(
                        JobStart {
                            id: completion.job_id.clone(),
                            sequence,
                            scheduled_at: s.occurrences[i].scheduled_at,
                        },
                    );
                } else {
                    skip_numbered(
                        &mut s,
                        sequence,
                        now,
                        "job was deleted, paused, or unavailable before queued execution began",
                    );
                }
            }
        }
        self.state.put(id, s);
        assert(self@.jobs == wanted.jobs);
        assert(self@.active == wanted.active);
        assert(self@.queued == wanted.queued);
        start
    }
}

// ---------------------------------------------------------------------------
// Recovering after an interruption

/// The occurrence, ended at `now` where it was running or waiting when the daemon stopped.
pub open spec fn recovered(o: OccurrenceView, now: i128) -> OccurrenceView {
    match o.status {
        CronOccurrenceStatus::Running => OccurrenceView {
            status: CronOccurrenceStatus::Failed,
            completed_at: Some(now),
            error: Some("the cron daemon stopped during this execution"@),
            ..o
        },
        CronOccurrenceStatus::Queued => skipped(
            o,
            now,
            "the cron daemon stopped before this queued execution began"@,
        ),
        _ => o,
    }
}

/// Whether an occurrence has not ended.
pub open spec fn is_open(o: OccurrenceView) -> bool {
    o.status == CronOccurrenceStatus::Running || o.status == CronOccurrenceStatus::Queued
}

/// Whether some occurrence of a job has not ended.
pub open spec fn any_open(s: JobStateView) -> bool {
    exists|i: int| 0 <= i < s.occurrences.len() && is_open(#[trigger] s.occurrences[i])
}

/// What is known of a job after recovering at `now`.
pub open spec fn recovered_job(s: JobStateView, now: i128) -> JobStateView {
    JobStateView {
        occurrences: Seq::new(
            s.occurrences.len(),
            |i: int| recovered(s.occurrences[i], now),
        ),
        ..s
    }
}

/// What is known of all jobs after recovering at `now`.
pub open spec fn recovered_jobs(jobs: Map<Seq<char>, JobStateView>, now: i128) -> Map<
    Seq<char>,
    JobStateView,
> {
    Map::new(|k: Seq<char>| jobs.contains_key(k), |k: Seq<char>| recovered_job(jobs[k], now))
}

fn recover_job(s: &mut CronJobState, now: i128) -> (changed: bool)
    ensures
        final(s)@ == recovered_job(old(s)@, now),
        changed == any_open(old(s)@),
{
    let ghost before = s@;
    let mut changed = false;
    let mut i: usize = 0;
    while i < s.occurrences.len()
        invariant
            i <= s.occurrences@.len(),
            s.occurrences@.len() == before.occurrences.len(),
            s.next_sequence == before.next_sequence,
            s.one_time_status == before.one_time_status,
            forall|j: int|
                0 <= j < s.occurrences@.len() ==> #[trigger] s.occurrences@[j]@ == (if j < i {
                    recovered(before.occurrences[j], now)
                } else {
                    before.occurrences[j]
                }),
            changed == exists|j: int| 0 <= j < i && is_open(#[trigger] before.occurrences[j]),
        decreases s.occurrences@.len() - i,
    {
        assert(s.occurrences@[i as int]@ == before.occurrences[i as int]);
        match s.occurrences[i].status {
            CronOccurrenceStatus::Running => {
                changed = true;
                s.occurrences[i].status = CronOccurrenceStatus::Failed;
                s.occurrences[i].completed_at = Some(now);
                s.occurrences[i].error = Some(
                    "the cron daemon stopped during this execution".to_owned(),
                );
                assert(is_open(before.occurrences[i as int]));
            },
            CronOccurrenceStatus::Queued => {
                changed = true;
                s.occurrences[i].status = CronOccurrenceStatus::SkippedOverlap;
                s.occurrences[i].completed_at = Some(now);
                s.occurrences[i].error = Some(
                    "the cron daemon stopped before this queued execution began".to_owned(),
                );
                assert(is_open(before.occurrences[i as int]));
            },
            _ => {},
        }
        i += 1;
    }
    assert(s@.occurrences == recovered_job(before, now).occurrences);
    changed
}

impl CronRuntimeState {
    /// Ends at `now` what was running or waiting when the daemon stopped; tells whether anything
    /// was.
    pub fn recover_interrupted_occurrences(&mut self, now: i128) -> (changed: bool)
        requires
            old(self).wf(),
        ensures
            final(self).wf(),
            final(self).version == old(self).version,
            cron::state_views(final(self).jobs.map()) == recovered_jobs(
                cron::state_views(old(self).jobs.map()),
                now,
            ),
            changed == exists|k: Seq<char>|
                cron::state_views(old(self).jobs.map()).contains_key(k) && any_open(
                    #[trigger] cron::state_views(old(self).jobs.map())[k],
                ),
    {
        let ghost before = *self;
        let ghost old_jobs = cron::state_views(before.jobs.map());
        let mut changed = false;
        let mut i: usize = 0;
        while i < self.jobs.len()
            invariant
                i <= self.jobs.names().len(),
                self.wf(),
                self.version == before.version,
                self.jobs.names() == before.jobs.names(),
                self.jobs.values().len() == before.jobs.values().len(),
                self.jobs.names().len() == self.jobs.values().len(),
                forall|j: int|
                    0 <= j < self.jobs.values().len() ==> #[trigger] self.jobs.values()[j]@ == (
                    if j < i {
                        recovered_job(before.jobs.values()[j]@, now)
                    } else {
                        before.jobs.values()[j]@
                    }),
                changed == exists|j: int|
                    0 <= j < i && any_open(#[trigger] before.jobs.values()[j]@),
            decreases self.jobs.names().len() - i,
        {
            let mut s = self.jobs.replace_at(i, CronJobState::new());
            if recover_job(&mut s, now) {
                changed = true;
                assert(any_open(before.jobs.values()[i as int]@));
            }
            let _ = self.jobs.replace_at(i, s);
            i += 1;
        }
        proof {
            let names = before.jobs.names();
            assert forall|k: Seq<char>| #[trigger] self.jobs.map().dom().contains(k) implies
                before.jobs.map().contains_key(k) && self.jobs.map()[k]@ == recovered_job(
                before.jobs.map()[k]@,
                now,
            ) by {
                let p = crate::table::place(names, k, 0);
                crate::table::lemma_place(names, k, 0);
                assert(self.jobs.values()[p]@ == recovered_job(before.jobs.values()[p]@, now));
            }
            assert(cron::state_views(self.jobs.map()) == recovered_jobs(old_jobs, now));
            if changed {
                let j = choose|j: int|
                    0 <= j < i && any_open(#[trigger] before.jobs.values()[j]@);
                crate::table::table_entries_are_its_map(before.jobs, names[j]);
                assert(before.jobs.map().contains_key(names[j]));
                assert(any_open(old_jobs[names[j]]));
            }
            if exists|k: Seq<char>|
                old_jobs.contains_key(k) && any_open(#[trigger] old_jobs[k]) {
                let k = choose|k: Seq<char>|
                    old_jobs.contains_key(k) && any_open(#[trigger] old_jobs[k]);
                crate::table::lemma_place(names, k, 0);
                assert(any_open(before.jobs.values()[crate::table::place(names, k, 0)]@));
            }
        }
        changed
    }
}

/// After recovering, nothing runs and nothing waits.
pub proof fn nothing_is_open_after_recovery(jobs: Map<Seq<char>, JobStateView>, now: i128)
    ensures
        forall|k: Seq<char>|
            recovered_jobs(jobs, now).contains_key(k) ==> !any_open(
                #[trigger] recovered_jobs(jobs, now)[k],
            ),
{
}

/// Recovering a second time changes nothing.
pub proof fn recovery_is_done_once(
    jobs: Map<Seq<char>, JobStateView>,
    now: i128,
    later: i128,
)
    ensures
        recovered_jobs(recovered_jobs(jobs, now), later) == recovered_jobs(jobs, now),
{
    let once = recovered_jobs(jobs, now);
    assert forall|k: Seq<char>| #[trigger] once.dom().contains(k) implies recovered_job(
        once[k],
        later,
    ) == once[k] by {
        assert(recovered_job(once[k], later).occurrences == once[k].occurrences);
    }
    assert(recovered_jobs(once, later) == once);
}

// ---------------------------------------------------------------------------
// Jobs that run once

/// What is known of a job that runs once at `at` when `now` is reached: it waits for its time, and
/// expires where that is missed.
pub open spec fn expired(s: JobStateView, at: int, now: int) -> JobStateView {
    let status = match s.one_time_status {
        Some(status) => status,
        None => OneTimeStatus::Pending,
    };
    JobStateView {
        one_time_status: Some(
            if status == OneTimeStatus::Pending && s.occurrences.len() == 0
                && !schedule::within_grace(at, now) {
                OneTimeStatus::Expired
            } else {
                status
            },
        ),
        ..s
    }
}

/// What is known of all jobs after a job was tried for expiry at `now`.
pub open spec fn jobs_after_expiry(
    jobs: Map<Seq<char>, JobStateView>,
    id: Seq<char>,
    plan: ScheduleView,
    now: i128,
) -> Map<Seq<char>, JobStateView> {
    match plan {
        ScheduleView::At(at) => jobs.insert(
            id,
            expired(cron::state_of(jobs, id), at, now as int),
        ),
        _ => jobs,
    }
}

impl CronRuntimeState {
    /// Marks a job as expired that runs once and missed its time.
    pub fn expire_one_time_if_needed(&mut self, id: &str, job: &CronJob, now: i128) -> (r: Result<
        (),
        ScheduleError,
    >)
        requires
            old(self).wf(),
        ensures
            final(self).wf(),
            final(self).version == old(self).version,
            match schedule::read_schedule(job.schedule@) {
                Ok(plan) => r is Ok && cron::state_views(final(self).jobs.map())
                    == jobs_after_expiry(cron::state_views(old(self).jobs.map()), id@, plan, now),
                Err(f) => (r matches Err(e) && e@ == f) && *final(self) == *old(self),
            },
    {
        let at: i128 = match schedule::parse_schedule(&job.schedule) {
            Ok(ParsedSchedule::At(at)) => at,
            Ok(_) => {
                return Ok(());
            },
            Err(e) => {
                return Err(e);
            },
        };
        let ghost before = cron::state_views(self.jobs.map());
        let mut s = self.take(id);
        if s.one_time_status.is_none() {
            s.one_time_status = Some(OneTimeStatus::Pending);
        }
        let pending = match s.one_time_status {
            Some(OneTimeStatus::Pending) => true,
            _ => false,
        };
        if pending && s.occurrences.len() == 0 && !schedule::in_grace(at, now) {
            s.one_time_status = Some(OneTimeStatus::Expired);
        }
        let ghost v = s@;
        self.put(id, s);
        assert(before.remove(id@).insert(id@, v) == before.insert(id@, v));
        assert(v == expired(cron::state_of(before, id@), at as int, now as int));
        Ok(())
    }

    /// Begins an execution of a job beside the daemon at `now`; gives its number. What an earlier
    /// process left open is ended first.
    pub fn run_now(&mut self, id: &str, job: &CronJob, now: i128) -> (r: Result<u64, ScheduleError>)
        requires
            old(self).wf(),
        ensures
            final(self).wf(),
            final(self).version == old(self).version,
            match schedule::read_schedule(job.schedule@) {
                Ok(plan) => {
                    let jobs = recovered_jobs(cron::state_views(old(self).jobs.map()), now);
                    let s = cron::state_of(jobs, id@);
                    (r matches Ok(n) && n == next_number(s)) && cron::state_views(
                        final(self).jobs.map(),
                    ) == jobs.insert(id@, begun(s, plan, now))
                },
                Err(f) => (r matches Err(e) && e@ == f) && cron::state_views(final(self).jobs.map())
                    == recovered_jobs(cron::state_views(old(self).jobs.map()), now),
            },
    {
        let _ = self.recover_interrupted_occurrences(now);
        let ghost jobs = cron::state_views(self.jobs.map());
        let once = match job.one_time_at() {
            Ok(at) => at.is_some(),
            Err(e) => {
                return Err(e);
            },
        };
        let mut s = self.take(id);
        let ghost before = s@;
        if once {
            s.one_time_status = Some(OneTimeStatus::Pending);
        }
        let sequence: u64 = number_of_next(&s);
        s.next_sequence = following(sequence);
        let mut occurrence = new_occurrence(sequence, now, true);
        occurrence.status = CronOccurrenceStatus::Running;
        occurrence.started_at = Some(now);
        s.add_occurrence(occurrence);
        let ghost v = s@;
        self.put(id, s);
        assert(jobs.remove(id@).insert(id@, v) == jobs.insert(id@, v));
        assert(v.occurrences == begun(
            before,
            schedule::read_schedule(job.schedule@)->Ok_0,
            now,
        ).occurrences);
        Ok(sequence)
    }
}

/// What is known of a job after an execution on request began at `now`.
pub open spec fn begun(s: JobStateView, plan: ScheduleView, now: i128) -> JobStateView {
    JobStateView {
        next_sequence: number_after(next_number(s)),
        one_time_status: if plan is At {
            Some(OneTimeStatus::Pending)
        } else {
            s.one_time_status
        },
        occurrences: s.occurrences.push(running(next_number(s), now, true, now)),
    }
}

// ---------------------------------------------------------------------------
// One round of the daemon

/// How far a round is: what the daemon knows, what is to be executed, and what stopped the round.
pub struct Round {
    pub daemon: DaemonView,
    pub starts: Seq<StartView>,
    pub fault: Option<OccurrenceFault>,
}

/// The round after one more occurrence is scheduled.
pub open spec fn with_occurrence(
    r: Round,
    id: Seq<char>,
    overlap: OverlapPolicy,
    scheduled_at: i128,
    manual: bool,
    stamp: i128,
) -> Round {
    Round {
        daemon: scheduled(r.daemon, id, overlap, scheduled_at, manual, stamp),
        starts: if r.daemon.active.contains(id) {
            r.starts
        } else {
            r.starts.push(
                StartView {
                    id,
                    sequence: next_number(cron::state_of(r.daemon.jobs, id)),
                    scheduled_at,
                },
            )
        },
        fault: r.fault,
    }
}

/// The round after the jobs are looked at that run once when the daemon starts, up to the `n`-th.
pub open spec fn after_startup(
    r: Round,
    names: Seq<Seq<char>>,
    jobs: Seq<CronJob>,
    n: nat,
    now: i128,
    stamp: i128,
) -> Round
    decreases n,
{
    if n == 0 {
        r
    } else {
        let before = after_startup(r, names, jobs, (n - 1) as nat, now, stamp);
        let job = jobs[n - 1];
        if before.fault is Some || !job.enabled {
            before
        } else {
            match schedule::read_schedule(job.schedule@) {
                Err(e) => Round { fault: Some(OccurrenceFault::Schedule(e)), ..before },
                Ok(ScheduleView::Reboot) => with_occurrence(
                    before,
                    names[n - 1],
                    job.overlap,
                    now,
                    false,
                    stamp,
                ),
                Ok(_) => before,
            }
        }
    }
}

/// The round after the first `n` requests to run a job: those for a job that there is are
/// scheduled.
pub open spec fn after_requests(
    r: Round,
    jobs: Map<Seq<char>, CronJob>,
    requests: Seq<ManualRunRequest>,
    n: nat,
    stamp: i128,
) -> Round
    decreases n,
{
    if n == 0 {
        r
    } else {
        let before = after_requests(r, jobs, requests, (n - 1) as nat, stamp);
        let request = requests[n - 1];
        if before.fault is None && jobs.contains_key(request.id@) {
            with_occurrence(
                before,
                request.id@,
                jobs[request.id@].overlap,
                request.requested_at,
                true,
                stamp,
            )
        } else {
            before
        }
    }
}

/// The round after the first `n` due occurrences of a job are scheduled.
pub open spec fn with_due(
    r: Round,
    id: Seq<char>,
    overlap: OverlapPolicy,
    due: Seq<int>,
    n: nat,
    stamp: i128,
) -> Round
    decreases n,
{
    if n == 0 {
        r
    } else {
        with_occurrence(
            with_due(r, id, overlap, due, (n - 1) as nat, stamp),
            id,
            overlap,
            due[n - 1] as i128,
            false,
            stamp,
        )
    }
}

/// The round after a job is looked at: what is due is scheduled, and what missed its only time
/// expires.
pub open spec fn after_job(
    r: Round,
    id: Seq<char>,
    job: CronJob,
    zone: Seq<char>,
    last_checked: i128,
    now: i128,
    stamp: i128,
) -> Round {
    match schedule::due_of(
        job.schedule@,
        cron::zone_of(job, zone),
        last_checked as int,
        now as int,
    ) {
        Err(e) => Round { fault: Some(e), ..r },
        Ok(due) => {
            let then_due = with_due(r, id, job.overlap, due, due.len(), stamp);
            Round {
                daemon: DaemonView {
                    jobs: jobs_after_expiry(
                        then_due.daemon.jobs,
                        id,
                        schedule::read_schedule(job.schedule@)->Ok_0,
                        now,
                    ),
                    ..then_due.daemon
                },
                ..then_due
            }
        },
    }
}

/// The round after the enabled jobs up to the `n`-th are looked at.
pub open spec fn after_jobs(
    r: Round,
    names: Seq<Seq<char>>,
    jobs: Seq<CronJob>,
    zone: Seq<char>,
    n: nat,
    last_checked: i128,
    now: i128,
    stamp: i128,
) -> Round
    decreases n,
{
    if n == 0 {
        r
    } else {
        let before = after_jobs(r, names, jobs, zone, (n - 1) as nat, last_checked, now, stamp);
        if before.fault is Some || !jobs[n - 1].enabled {
            before
        } else {
            after_job(before, names[n - 1], jobs[n - 1], zone, last_checked, now, stamp)
        }
    }
}

/// A whole round: jobs that run when the daemon starts (in the first round only), then requests,
/// then what is due. The first fault ends it.
pub open spec fn whole_round(
    d: DaemonView,
    document: CronDocument,
    startup: bool,
    requests: Seq<ManualRunRequest>,
    last_checked: i128,
    now: i128,
    stamp: i128,
) -> Round {
    let names = document.jobs.names();
    let jobs = document.jobs.values();
    let empty = Round { daemon: d, starts: Seq::empty(), fault: None };
    let started = if startup {
        after_startup(empty, names, jobs, names.len(), now, stamp)
    } else {
        empty
    };
    let requested = after_requests(
        started,
        document.jobs.map(),
        requests,
        requests.len(),
        stamp,
    );
    if requested.fault is Some {
        requested
    } else {
        after_jobs(
            requested,
            names,
            jobs,
            document.timezone@,
            names.len(),
            last_checked,
            now,
            stamp,
        )
    }
}

fn schedule_into(
    daemon: &mut Daemon,
    starts: &mut Vec<JobStart>,
    id: &str,
    overlap: OverlapPolicy,
    scheduled_at: i128,
    manual: bool,
    stamp: i128,
)
    requires
        old(daemon).wf(),
    ensures
        final(daemon).wf(),
        final(daemon).state.version == old(daemon).state.version,
        forall|r: Round|
            r.daemon == old(daemon)@ && r.starts == start_views(old(starts)@)
                ==> #[trigger] with_occurrence(r, id@, overlap, scheduled_at, manual, stamp)
                == (Round {
                daemon: final(daemon)@,
                starts: start_views(final(starts)@),
                fault: r.fault,
            }),
{
    let ghost before = start_views(starts@);
    let (sequence, start) = daemon.schedule_occurrence(id, overlap, scheduled_at, manual, stamp);
    if start {
        let s = JobStart { id: id.to_owned(), sequence, scheduled_at };
        let ghost v = s@;
        starts.push(s);
        assert(start_views(starts@) == before.push(v));
    }
}

impl Daemon {
    /// Lets what is asked for at every start begin: what is to be executed is added to `starts`.
    pub fn startup_pass(
        &mut self,
        starts: &mut Vec<JobStart>,
        document: &CronDocument,
        now: i128,
        stamp: i128,
    ) -> (r: Option<OccurrenceError>)
        requires
            old(self).wf(),
            document.wf(),
        ensures
            final(self).wf(),
            final(self).state.version == old(self).state.version,
            ({
                let begin = Round {
                    daemon: old(self)@,
                    starts: start_views(old(starts)@),
                    fault: None,
                };
                let end = after_startup(
                    begin,
                    document.jobs.names(),
                    document.jobs.values(),
                    document.jobs.names().len(),
                    now,
                    stamp,
                );
                &&& final(self)@ == end.daemon
                &&& start_views(final(starts)@) == end.starts
                &&& r is None == end.fault is None
                &&& (r matches Some(e) ==> end.fault == Some(e@))
            }),
    {
        let ghost begin = Round { daemon: self@, starts: start_views(starts@), fault: None };
        let ghost names = document.jobs.names();
        let ghost jobs = document.jobs.values();
        let ghost version = self.state.version;
        let mut i: usize = 0;
        while i < document.jobs.len()
            invariant
                i <= names.len(),
                names == document.jobs.names(),
                jobs == document.jobs.values(),
                version == old(self).state.version,
                begin == (Round {
                    daemon: old(self)@,
                    starts: start_views(old(starts)@),
                    fault: None,
                }),
                names.len() == jobs.len(),
                self.wf(),
                self.state.version == version,
                after_startup(begin, names, jobs, i as nat, now, stamp) == (Round {
                    daemon: self@,
                    starts: start_views(starts@),
                    fault: None,
                }),
            decreases names.len() - i,
        {
            let job = document.jobs.value_at(i);
            if job.enabled {
                match schedule::parse_schedule(&job.schedule) {
                    Ok(ParsedSchedule::Reboot) => {
                        schedule_into(
                            self,
                            starts,
                            document.jobs.name_at(i),
                            job.overlap,
                            now,
                            false,
                            stamp,
                        );
                    },
                    Ok(_) => {},
                    Err(e) => {
                        proof {
                            lemma_startup_stays(begin, names, jobs, (i + 1) as nat, names.len(), now, stamp);
                        }
                        return Some(OccurrenceError::Schedule(e));
                    },
                }
            }
            i += 1;
        }
        None
    }

    fn request_pass(
        &mut self,
        starts: &mut Vec<JobStart>,
        document: &CronDocument,
        requests: &Vec<ManualRunRequest>,
        stamp: i128,
    )
        requires
            old(self).wf(),
            document.wf(),
        ensures
            final(self).wf(),
            final(self).state.version == old(self).state.version,
            after_requests(
                Round { daemon: old(self)@, starts: start_views(old(starts)@), fault: None },
                document.jobs.map(),
                requests@,
                requests@.len(),
                stamp,
            ) == (Round {
                daemon: final(self)@,
                starts: start_views(final(starts)@),
                fault: None,
            }),
    {
        let ghost begin = Round { daemon: self@, starts: start_views(starts@), fault: None };
        let ghost version = self.state.version;
        let mut i: usize = 0;
        while i < requests.len()
            invariant
                i <= requests@.len(),
                document.wf(),
                self.wf(),
                self.state.version == version,
                after_requests(begin, document.jobs.map(), requests@, i as nat, stamp) == (Round {
                    daemon: self@,
                    starts: start_views(starts@),
                    fault: None,
                }),
            decreases requests@.len() - i,
        {
            if let Some(job) = document.jobs.get(&requests[i].id) {
                schedule_into(
                    self,
                    starts,
                    &requests[i].id,
                    job.overlap,
                    requests[i].requested_at,
                    true,
                    stamp,
                );
            }
            i += 1;
        }
    }

    fn due_of_job(
        &mut self,
        starts: &mut Vec<JobStart>,
        id: &str,
        job: &CronJob,
        zone: &str,
        last_checked: i128,
        now: i128,
        stamp: i128,
    ) -> (r: Option<OccurrenceError>)
        requires
            old(self).wf(),
            schedule::is_instant(now as int),
        ensures
            final(self).wf(),
            final(self).state.version == old(self).state.version,
            ({
                let begin = Round {
                    daemon: old(self)@,
                    starts: start_views(old(starts)@),
                    fault: None,
                };
                let end = after_job(begin, id@, *job, zone@, last_checked, now, stamp);
                &&& final(self)@ == end.daemon
                &&& start_views(final(starts)@) == end.starts
                &&& r is None == end.fault is None
                &&& (r matches Some(e) ==> end.fault == Some(e@))
            }),
    {
        let ghost begin = Round { daemon: self@, starts: start_views(starts@), fault: None };
        let ghost version = self.state.version;
        let due = match cron::due_occurrences(job, zone, last_checked, now) {
            Ok(due) => due,
            Err(e) => {
                return Some(e);
            },
        };
        let ghost times = schedule::instants(due@);
        let mut i: usize = 0;
        while i < due.len()
            invariant
                i <= due@.len(),
                times == schedule::instants(due@),
                self.wf(),
                self.state.version == version,
                with_due(begin, id@, job.overlap, times, i as nat, stamp) == (Round {
                    daemon: self@,
                    starts: start_views(starts@),
                    fault: None,
                }),
            decreases due@.len() - i,
        {
            assert(times[i as int] as i128 == due@[i as int]);
            schedule_into(self, starts, id, job.overlap, due[i], false, stamp);
            i += 1;
        }
        assert(times.len() == due@.len());
        match self.state.expire_one_time_if_needed(id, job, now) {
            Ok(()) => None,
            Err(e) => Some(OccurrenceError::Schedule(e)),
        }
    }

    fn due_pass(
        &mut self,
        starts: &mut Vec<JobStart>,
        document: &CronDocument,
        last_checked: i128,
        now: i128,
        stamp: i128,
    ) -> (r: Option<OccurrenceError>)
        requires
            old(self).wf(),
            document.wf(),
            schedule::is_instant(now as int),
        ensures
            final(self).wf(),
            final(self).state.version == old(self).state.version,
            ({
                let begin = Round {
                    daemon: old(self)@,
                    starts: start_views(old(starts)@),
                    fault: None,
                };
                let end = after_jobs(
                    begin,
                    document.jobs.names(),
                    document.jobs.values(),
                    document.timezone@,
                    document.jobs.names().len(),
                    last_checked,
                    now,
                    stamp,
                );
                &&& final(self)@ == end.daemon
                &&& start_views(final(starts)@) == end.starts
                &&& r is None == end.fault is None
                &&& (r matches Some(e) ==> end.fault == Some(e@))
            }),
    {
        let ghost begin = Round { daemon: self@, starts: start_views(starts@), fault: None };
        let ghost names = document.jobs.names();
        let ghost jobs = document.jobs.values();
        let ghost zone = document.timezone@;
        let ghost version = self.state.version;
        let mut i: usize = 0;
        while i < document.jobs.len()
            invariant
                i <= names.len(),
                names == document.jobs.names(),
                jobs == document.jobs.values(),
                version == old(self).state.version,
                begin == (Round {
                    daemon: old(self)@,
                    starts: start_views(old(starts)@),
                    fault: None,
                }),
                zone == document.timezone@,
                names.len() == jobs.len(),
                schedule::is_instant(now as int),
                self.wf(),
                self.state.version == version,
                after_jobs(begin, names, jobs, zone, i as nat, last_checked, now, stamp) == (
                Round { daemon: self@, starts: start_views(starts@), fault: None }),
            decreases names.len() - i,
        {
            let job = document.jobs.value_at(i);
            if job.enabled {
                let failed = self.due_of_job(
                    starts,
                    document.jobs.name_at(i),
                    job,
                    &document.timezone,
                    last_checked,
                    now,
                    stamp,
                );
                if failed.is_some() {
                    proof {
                        lemma_jobs_stay(begin, names, jobs, zone, (i + 1) as nat, names.len(), last_checked, now, stamp);
                    }
                    return failed;
                }
            }
            i += 1;
        }
        None
    }

    /// One round of the daemon at `now`: what is to be executed, and what stopped the round, where
    /// anything did. `stamp` is when occurrences begin or are skipped.
    pub fn round(
        &mut self,
        document: &CronDocument,
        startup: bool,
        requests: &Vec<ManualRunRequest>,
        last_checked: i128,
        now: i128,
        stamp: i128,
    ) -> (r: (Vec<JobStart>, Option<OccurrenceError>))
        requires
            old(self).wf(),
            document.wf(),
            schedule::is_instant(now as int),
        ensures
            final(self).wf(),
            final(self).state.version == old(self).state.version,
            ({
                let end = whole_round(
                    old(self)@,
                    *document,
                    startup,
                    requests@,
                    last_checked,
                    now,
                    stamp,
                );
                &&& final(self)@ == end.daemon
                &&& start_views(r.0@) == end.starts
                &&& r.1 is None == end.fault is None
                &&& (r.1 matches Some(e) ==> end.fault == Some(e@))
            }),
    {
        let ghost begin = Round { daemon: self@, starts: Seq::empty(), fault: None };
        let mut starts: Vec<JobStart> = Vec::new();
        assert(start_views(starts@) == begin.starts);
        if startup {
            let failed = self.startup_pass(&mut starts, document, now, stamp);
            if failed.is_some() {
                proof {
                    lemma_requests_stay(
                        after_startup(begin, document.jobs.names(), document.jobs.values(), document.jobs.names().len(), now, stamp),
                        document.jobs.map(), requests@, requests@.len(), stamp,
                    );
                }
                return (starts, failed);
            }
            proof {
                let end = after_startup(begin, document.jobs.names(), document.jobs.values(), document.jobs.names().len(), now, stamp);
                assert(end == (Round { daemon: self@, starts: start_views(starts@), fault: None }));
            }
        }
        self.request_pass(&mut starts, document, requests, stamp);
        let failed = self.due_pass(&mut starts, document, last_checked, now, stamp);
        (starts, failed)
    }
}

proof fn lemma_startup_stays(
    r: Round,
    names: Seq<Seq<char>>,
    jobs: Seq<CronJob>,
    m: nat,
    n: nat,
    now: i128,
    stamp: i128,
)
    requires
        m <= n,
        after_startup(r, names, jobs, m, now, stamp).fault is Some,
    ensures
        after_startup(r, names, jobs, n, now, stamp) == after_startup(
            r,
            names,
            jobs,
            m,
            now,
            stamp,
        ),
    decreases n,
{
    if m < n {
        lemma_startup_stays(r, names, jobs, m, (n - 1) as nat, now, stamp);
    }
}

proof fn lemma_requests_stay(
    r: Round,
    jobs: Map<Seq<char>, CronJob>,
    requests: Seq<ManualRunRequest>,
    n: nat,
    stamp: i128,
)
    requires
        r.fault is Some,
    ensures
        after_requests(r, jobs, requests, n, stamp) == r,
    decreases n,
{
    if n > 0 {
        lemma_requests_stay(r, jobs, requests, (n - 1) as nat, stamp);
    }
}

proof fn lemma_jobs_stay(
    r: Round,
    names: Seq<Seq<char>>,
    jobs: Seq<CronJob>,
    zone: Seq<char>,
    m: nat,
    n: nat,
    last_checked: i128,
    now: i128,
    stamp: i128,
)
    requires
        m <= n,
        after_jobs(r, names, jobs, zone, m, last_checked, now, stamp).fault is Some,
    ensures
        after_jobs(r, names, jobs, zone, n, last_checked, now, stamp) == after_jobs(
            r,
            names,
            jobs,
            zone,
            m,
            last_checked,
            now,
            stamp,
        ),
    decreases n,
{
    if m < n {
        lemma_jobs_stay(r, names, jobs, zone, m, (n - 1) as nat, last_checked, now, stamp);
    }
}

/// What a person is told about the stored schedule, and the error to be remembered: an error is
/// told once, and its end too.
pub fn document_notice(last_error: &Option<String>, error: Option<&str>) -> (r: (
    Option<String>,
    Option<String>,
))
    ensures
        message::opt_view(r.0) == (match error {
            Some(e) => Some(e@),
            None => None,
        }),
        message::opt_view(r.1) == (match error {
            Some(e) => if message::opt_view(*last_error) == Some(e@) {
                None
            } else {
                Some("Cron scheduling paused: "@ + e@)
            },
            None => if last_error is Some {
                Some("Cron configuration is valid again."@)
            } else {
                None
            },
        }),
{
    match error {
        Some(e) => {
            let known = match last_error {
                Some(last) => text::same(last, e),
                None => false,
            };
            let notice = if known {
                None
            } else {
                Some(text::cat2("Cron scheduling paused: ", e))
            };
            (Some(e.to_owned()), notice)
        },
        None => {
            let notice = if last_error.is_some() {
                Some("Cron configuration is valid again.".to_owned())
            } else {
                None
            };
            (None, notice)
        },
    }
}

// ---------------------------------------------------------------------------
// What always holds

/// Whether the numbers of the occurrences of a job grow, and stay below that of the next one.
pub open spec fn numbered(s: JobStateView) -> bool {
    &&& forall|i: int, j: int|
        0 <= i < j < s.occurrences.len() ==> (#[trigger] s.occurrences[i]).sequence < (
        #[trigger] s.occurrences[j]).sequence
    &&& forall|i: int|
        0 <= i < s.occurrences.len() ==> (#[trigger] s.occurrences[i]).sequence < s.next_sequence
}

/// Whether a job has one running occurrence where it is active and none where not, and whether the
/// occurrence that is queued, and no other, waits.
pub open spec fn sound_job(s: JobStateView, is_active: bool, queued: Option<u64>) -> bool {
    &&& numbered(s)
    &&& forall|i: int|
        0 <= i < s.occurrences.len() ==> ((#[trigger] s.occurrences[i]).status
            == CronOccurrenceStatus::Queued) == (queued == Some(s.occurrences[i].sequence))
    &&& queued is Some ==> is_active && exists|i: int|
        0 <= i < s.occurrences.len() && Some((#[trigger] s.occurrences[i]).sequence) == queued
    &&& is_active == exists|i: int|
        0 <= i < s.occurrences.len() && (#[trigger] s.occurrences[i]).status
            == CronOccurrenceStatus::Running
    &&& forall|i: int, j: int|
        0 <= i < s.occurrences.len() && 0 <= j < s.occurrences.len() && (
        #[trigger] s.occurrences[i]).status == CronOccurrenceStatus::Running && (
        #[trigger] s.occurrences[j]).status == CronOccurrenceStatus::Running ==> i == j
}

/// The number of the queued occurrence of a job.
pub open spec fn queued_of(d: DaemonView, id: Seq<char>) -> Option<u64> {
    if d.queued.contains_key(id) {
        Some(d.queued[id])
    } else {
        None
    }
}

/// Whether of every job at most one occurrence runs and at most one waits, as the daemon knows.
pub open spec fn sound(d: DaemonView) -> bool {
    forall|k: Seq<char>| #[trigger]
        sound_job(cron::state_of(d.jobs, k), d.active.contains(k), queued_of(d, k))
}

/// A daemon that has recovered what was stored, and does nothing yet, is sound.
pub proof fn a_recovered_daemon_is_sound(
    version: u32,
    jobs: Map<Seq<char>, JobStateView>,
    now: i128,
)
    requires
        forall|k: Seq<char>| jobs.contains_key(k) ==> numbered(#[trigger] jobs[k]),
    ensures
        sound(
            DaemonView {
                version,
                jobs: recovered_jobs(jobs, now),
                active: Set::empty(),
                queued: Map::empty(),
            },
        ),
{
    let d = DaemonView {
        version,
        jobs: recovered_jobs(jobs, now),
        active: Set::empty(),
        queued: Map::empty(),
    };
    assert forall|k: Seq<char>| #[trigger]
        sound_job(cron::state_of(d.jobs, k), d.active.contains(k), queued_of(d, k)) by {
        if jobs.contains_key(k) {
            let s = recovered_job(jobs[k], now);
            assert(cron::state_of(d.jobs, k) == s);
            assert forall|i: int, j: int| 0 <= i < j < s.occurrences.len() implies (
            #[trigger] s.occurrences[i]).sequence < (#[trigger] s.occurrences[j]).sequence by {
                assert(jobs[k].occurrences[i].sequence < jobs[k].occurrences[j].sequence);
            }
        }
    }
}

/// Scheduling an occurrence keeps the daemon sound: a job never runs twice at once, and only its
/// newest occurrence waits.
pub proof fn scheduling_keeps_the_daemon_sound(
    d: DaemonView,
    id: Seq<char>,
    overlap: OverlapPolicy,
    scheduled_at: i128,
    manual: bool,
    now: i128,
)
    requires
        sound(d),
        next_number(cron::state_of(d.jobs, id)) < u64::MAX,
    ensures
        sound(scheduled(d, id, overlap, scheduled_at, manual, now)),
{
    let after = scheduled(d, id, overlap, scheduled_at, manual, now);
    assert forall|k: Seq<char>| #[trigger]
        sound_job(cron::state_of(after.jobs, k), after.active.contains(k), queued_of(after, k)) by {
        assert(sound_job(cron::state_of(d.jobs, k), d.active.contains(k), queued_of(d, k)));
        if k == id {
            let s = cron::state_of(d.jobs, k);
            let t = cron::state_of(after.jobs, k);
            let n = s.occurrences.len() as int;
            match queued_of(d, k) {
                Some(previous) => {
                    cron::lemma_occurrence_at(s.occurrences, previous, 0);
                },
                None => {},
            }
            assert(t.occurrences.len() == n + 1);
            assert(t.occurrences[n].sequence == next_number(s));
            assert forall|i: int| 0 <= i < n implies (#[trigger] t.occurrences[i]).sequence
                == s.occurrences[i].sequence && (t.occurrences[i].status
                == CronOccurrenceStatus::Running) == (s.occurrences[i].status
                == CronOccurrenceStatus::Running) by {}
            if d.active.contains(k) {
                let r = choose|i: int|
                    0 <= i < n && (#[trigger] s.occurrences[i]).status
                        == CronOccurrenceStatus::Running;
                assert(t.occurrences[r].status == CronOccurrenceStatus::Running);
                if overlap == OverlapPolicy::Skip && queued_of(d, k) is Some {
                    let q = choose|i: int|
                        0 <= i < n && Some((#[trigger] s.occurrences[i]).sequence) == queued_of(
                            d,
                            k,
                        );
                    assert(t.occurrences[q].sequence == s.occurrences[q].sequence);
                }
            } else {
                assert(t.occurrences[n].status == CronOccurrenceStatus::Running);
            }
        } else {
            assert(cron::state_of(after.jobs, k) == cron::state_of(d.jobs, k));
            assert(queued_of(after, k) == queued_of(d, k));
        }
    }
}

/// Finishing the running occurrence of a job keeps the daemon sound: what waited runs, or is
/// skipped.
pub proof fn finishing_keeps_the_daemon_sound(
    d: DaemonView,
    completion: JobCompletion,
    job: Option<CronJob>,
    now: i128,
)
    requires
        sound(d),
        completion.status != CronOccurrenceStatus::Running,
        completion.status != CronOccurrenceStatus::Queued,
        exists|i: int|
            0 <= i < cron::state_of(d.jobs, completion.job_id@).occurrences.len() && (
            #[trigger] cron::state_of(d.jobs, completion.job_id@).occurrences[i]).sequence
                == completion.sequence && cron::state_of(
                d.jobs,
                completion.job_id@,
            ).occurrences[i].status == CronOccurrenceStatus::Running,
    ensures
        sound(finished(d, completion, job, now)),
{
    let id = completion.job_id@;
    let after = finished(d, completion, job, now);
    assert forall|k: Seq<char>| #[trigger]
        sound_job(cron::state_of(after.jobs, k), after.active.contains(k), queued_of(after, k)) by {
        assert(sound_job(cron::state_of(d.jobs, k), d.active.contains(k), queued_of(d, k)));
        if k == id {
            let s = cron::state_of(d.jobs, k);
            let n = s.occurrences.len() as int;
            let r = choose|i: int|
                0 <= i < n && (#[trigger] s.occurrences[i]).sequence == completion.sequence
                    && s.occurrences[i].status == CronOccurrenceStatus::Running;
            cron::lemma_occurrence_at(s.occurrences, completion.sequence, 0);
            assert(cron::occurrence_at(s.occurrences, completion.sequence, 0) == r);
            let c = completed(s, completion, job, now);
            let t = cron::state_of(after.jobs, k);
            match queued_of(d, k) {
                Some(previous) => {
                    let q = choose|i: int|
                        0 <= i < n && Some((#[trigger] s.occurrences[i]).sequence) == queued_of(
                            d,
                            k,
                        );
                    cron::lemma_occurrence_at(c.occurrences, previous, 0);
                    assert(c.occurrences[q].sequence == previous);
                    assert(cron::occurrence_at(c.occurrences, previous, 0) == q) by {
                        let p = cron::occurrence_at(c.occurrences, previous, 0);
                        if p < q {
                            assert(c.occurrences[p].sequence == s.occurrences[p].sequence);
                        }
                    }
                    assert(t.occurrences[q].status != CronOccurrenceStatus::Queued);
                    if may_run(job) {
                        assert(t.occurrences[q].status == CronOccurrenceStatus::Running);
                    }
                },
                None => {
                    assert(t == c);
                },
            }
            assert forall|i: int| 0 <= i < n implies (#[trigger] t.occurrences[i]).sequence
                == s.occurrences[i].sequence by {}
        } else {
            assert(cron::state_of(after.jobs, k) == cron::state_of(d.jobs, k));
            assert(queued_of(after, k) == queued_of(d, k));
        }
    }
}

// ---------------------------------------------------------------------------
// Requests to run a job now

/// Whether a file holds a request.
pub open spec fn is_request(name: Seq<char>) -> bool {
    text::finishes_with(name, ".json"@) && name.len() > ".json"@.len()
}

/// The positions of the first `n` files that hold a request.
pub open spec fn request_positions(names: Seq<Seq<char>>, n: nat) -> Seq<int>
    decreases n,
{
    if n == 0 {
        Seq::empty()
    } else if is_request(names[n - 1]) {
        request_positions(names, (n - 1) as nat).push(n - 1)
    } else {
        request_positions(names, (n - 1) as nat)
    }
}

/// How files rank by their names.
pub open spec fn name_ranks(names: Seq<String>) -> Seq<ByText> {
    Seq::new(names.len(), |i: int| ByText { text: names[i] })
}

/// The files that hold a request, in the order of their names.
pub open spec fn request_order(names: Seq<String>) -> Seq<Seq<char>> {
    let order = sort::sort_by(
        name_ranks(names),
        request_positions(text::views(names), names.len()),
    );
    Seq::new(order.len(), |i: int| names[order[i]]@)
}

/// The files that hold a request to run a job, in the order in which they are taken.
pub fn take_manual_requests(names: &Vec<String>) -> (r: Vec<String>)
    ensures
        text::views(r@) == request_order(names@),
{
    let ghost all = text::views(names@);
    let mut keys: Vec<ByText> = Vec::new();
    let mut kept: Vec<usize> = Vec::new();
    let mut i: usize = 0;
    assert(sort::ints(kept@) == Seq::<int>::empty());
    while i < names.len()
        invariant
            i <= names@.len(),
            all == text::views(names@),
            keys@.len() == i,
            forall|j: int| 0 <= j < i ==> #[trigger] keys@[j] == name_ranks(names@)[j],
            forall|j: int| 0 <= j < kept@.len() ==> #[trigger] kept@[j] < i,
            sort::ints(kept@) == request_positions(all, i as nat),
        decreases names@.len() - i,
    {
        let ghost before = sort::ints(kept@);
        assert(all[i as int] == names@[i as int]@);
        keys.push(ByText { text: names[i].clone() });
        if text::ends_with(&names[i], ".json") && !text::same(&names[i], ".json") {
            proof {
                lemma_longer(all[i as int], ".json"@);
            }
            kept.push(i);
            assert(sort::ints(kept@) == before.push(i as int));
        }
        i += 1;
    }
    assert(keys@ == name_ranks(names@));
    let order = sort::sort_indexes(&keys, &kept);
    let mut r = text::no_texts();
    let mut i: usize = 0;
    assert(text::views(r@) == request_order(names@).take(0));
    while i < order.len()
        invariant
            i <= order@.len(),
            forall|j: int| 0 <= j < order@.len() ==> #[trigger] order@[j] < names@.len(),
            sort::ints(order@) == sort::sort_by(
                name_ranks(names@),
                request_positions(text::views(names@), names@.len()),
            ),
            text::views(r@) == request_order(names@).take(i as int),
        decreases order@.len() - i,
    {
        assert(sort::ints(order@)[i as int] == order@[i as int] as int);
        r = text::with(r, &names[order[i]]);
        assert(text::views(r@) == request_order(names@).take(i + 1));
        i += 1;
    }
    assert(sort::ints(order@).len() == order@.len());
    assert(request_order(names@).take(i as int) == request_order(names@));
    r
}

proof fn lemma_longer(s: Seq<char>, end: Seq<char>)
    requires
        text::finishes_with(s, end),
    ensures
        s == end || s.len() > end.len(),
{
    if s.len() == end.len() {
        assert(s.subrange(0, end.len() as int) == s);
    }
}

// ---------------------------------------------------------------------------
// What is done with occurrences

/// Whether an occurrence is new: it has a number, a time and who asked for it, and nothing came of it.
pub open spec fn is_new(o: OccurrenceView, sequence: u64, scheduled_at: i128, manual: bool) -> bool {
    &&& o.sequence == sequence
    &&& o.scheduled_at == scheduled_at
    &&& o.manual == manual
    &&& o.session_id is None
    &&& o.last_message is None
}

/// An occurrence of a job that does not run begins at once: it becomes the last occurrence of the job,
/// running since now, and the job runs. What is known of earlier occurrences stays.
pub proof fn an_occurrence_of_an_idle_job_begins(
    d: DaemonView,
    id: Seq<char>,
    overlap: OverlapPolicy,
    scheduled_at: i128,
    manual: bool,
    now: i128,
)
    requires
        !d.active.contains(id),
    ensures
        ({
            let after = scheduled(d, id, overlap, scheduled_at, manual, now);
            let before = cron::state_of(d.jobs, id).occurrences;
            let all = after.jobs[id].occurrences;
            &&& after.active == d.active.insert(id)
            &&& after.queued == d.queued
            &&& all.len() == before.len() + 1
            &&& forall|i: int| 0 <= i < before.len() ==> #[trigger] all[i] == before[i]
            &&& is_new(
                all.last(),
                next_number(cron::state_of(d.jobs, id)),
                scheduled_at,
                manual,
            )
            &&& all.last().status == CronOccurrenceStatus::Running
            &&& all.last().started_at == Some(now)
            &&& all.last().completed_at is None
            &&& all.last().error is None
        }),
{
}

/// An occurrence that comes while its job runs is skipped where the job says so: it becomes the last
/// occurrence, ended now and not begun, and nothing waits for it.
pub proof fn an_overlapping_occurrence_is_skipped(
    d: DaemonView,
    id: Seq<char>,
    scheduled_at: i128,
    manual: bool,
    now: i128,
)
    requires
        d.active.contains(id),
    ensures
        ({
            let after = scheduled(d, id, OverlapPolicy::Skip, scheduled_at, manual, now);
            let before = cron::state_of(d.jobs, id).occurrences;
            let all = after.jobs[id].occurrences;
            &&& after.active == d.active
            &&& after.queued == d.queued
            &&& all.len() == before.len() + 1
            &&& forall|i: int| 0 <= i < before.len() ==> #[trigger] all[i] == before[i]
            &&& is_new(
                all.last(),
                next_number(cron::state_of(d.jobs, id)),
                scheduled_at,
                manual,
            )
            &&& all.last().status == CronOccurrenceStatus::SkippedOverlap
            &&& all.last().started_at is None
            &&& all.last().completed_at == Some(now)
            &&& all.last().error is Some
        }),
{
    assert(d.active.insert(id) =~= d.active);
}

/// An occurrence that comes while its job runs waits where the job says so, in place of the one that
/// waited before, which is skipped.
pub proof fn the_newest_overlapping_occurrence_waits(
    d: DaemonView,
    id: Seq<char>,
    scheduled_at: i128,
    manual: bool,
    now: i128,
)
    requires
        d.active.contains(id),
    ensures
        ({
            let after = scheduled(d, id, OverlapPolicy::Queue, scheduled_at, manual, now);
            let before = cron::state_of(d.jobs, id).occurrences;
            let all = after.jobs[id].occurrences;
            &&& after.active == d.active
            &&& after.queued.contains_key(id)
            &&& after.queued[id] == all.last().sequence
            &&& all.len() == before.len() + 1
            &&& is_new(
                all.last(),
                next_number(cron::state_of(d.jobs, id)),
                scheduled_at,
                manual,
            )
            &&& all.last().status == CronOccurrenceStatus::Queued
            &&& all.last().started_at is None
            &&& all.last().completed_at is None
            &&& forall|i: int|
                0 <= i < before.len() && !(d.queued.contains_key(id) && before[i].sequence
                    == d.queued[id]) ==> #[trigger] all[i] == before[i]
            &&& forall|i: int|
                #![trigger all[i]]
                0 <= i < before.len() && d.queued.contains_key(id) && before[i].sequence
                    == d.queued[id] && (forall|j: int|
                    0 <= j < i ==> (#[trigger] before[j]).sequence != d.queued[id])
                    ==> all[i].status == CronOccurrenceStatus::SkippedOverlap
                    && all[i].completed_at == Some(now) && all[i].sequence == before[i].sequence
        }),
{
    assert(d.active.insert(id) =~= d.active);
    let before = cron::state_of(d.jobs, id).occurrences;
    if d.queued.contains_key(id) {
        cron::lemma_occurrence_at(before, d.queued[id], 0);
    }
}

/// What happens to one job changes nothing of another.
pub proof fn jobs_do_not_meddle(
    d: DaemonView,
    id: Seq<char>,
    overlap: OverlapPolicy,
    scheduled_at: i128,
    manual: bool,
    now: i128,
    completion: JobCompletion,
    job: Option<CronJob>,
    other: Seq<char>,
)
    requires
        other != id,
        other != completion.job_id@,
    ensures
        ({
            let after = scheduled(d, id, overlap, scheduled_at, manual, now);
            &&& after.jobs.contains_key(other) == d.jobs.contains_key(other)
            &&& d.jobs.contains_key(other) ==> after.jobs[other] == d.jobs[other]
            &&& after.active.contains(other) == d.active.contains(other)
            &&& after.queued.contains_key(other) == d.queued.contains_key(other)
        }),
        ({
            let after = finished(d, completion, job, now);
            &&& after.jobs.contains_key(other) == d.jobs.contains_key(other)
            &&& d.jobs.contains_key(other) ==> after.jobs[other] == d.jobs[other]
            &&& after.active.contains(other) == d.active.contains(other)
            &&& after.queued.contains_key(other) == d.queued.contains_key(other)
        }),
{
}

/// The numbers of the occurrences of a job go up by one, from one on.
pub proof fn numbers_go_up(
    d: DaemonView,
    id: Seq<char>,
    overlap: OverlapPolicy,
    scheduled_at: i128,
    manual: bool,
    now: i128,
)
    requires
        next_number(cron::state_of(d.jobs, id)) < u64::MAX,
    ensures
        ({
            let after = scheduled(d, id, overlap, scheduled_at, manual, now);
            &&& next_number(after.jobs[id]) == next_number(cron::state_of(d.jobs, id)) + 1
            &&& !d.jobs.contains_key(id) ==> next_number(cron::state_of(d.jobs, id)) == 1
        }),
{
}

/// The execution that ended is recorded where its occurrence stands: with how it ended, now, and what
/// came of it. Every other occurrence stays as it was, but for the one that waits.
pub proof fn an_end_is_recorded_where_it_belongs(
    d: DaemonView,
    completion: JobCompletion,
    job: Option<CronJob>,
    now: i128,
    p: int,
)
    requires
        ({
            let before = cron::state_of(d.jobs, completion.job_id@).occurrences;
            &&& 0 <= p < before.len()
            &&& before[p].sequence == completion.sequence
            &&& forall|j: int| 0 <= j < p ==> (#[trigger] before[j]).sequence
                != completion.sequence
            &&& !(d.queued.contains_key(completion.job_id@) && d.queued[completion.job_id@]
                == completion.sequence)
        }),
    ensures
        ({
            let id = completion.job_id@;
            let before = cron::state_of(d.jobs, id).occurrences;
            let after = finished(d, completion, job, now);
            let all = after.jobs[id].occurrences;
            &&& all.len() == before.len()
            &&& all[p].sequence == completion.sequence
            &&& all[p].status == completion.status
            &&& all[p].completed_at == Some(now)
            &&& all[p].session_id == completion.session_id
            &&& all[p].last_message == message::opt_view(completion.last_message)
            &&& all[p].error == message::opt_view(completion.error)
            &&& all[p].started_at == before[p].started_at
            &&& all[p].scheduled_at == before[p].scheduled_at
            &&& forall|i: int|
                0 <= i < before.len() && i != p && !(d.queued.contains_key(id)
                    && before[i].sequence == d.queued[id]) ==> #[trigger] all[i] == before[i]
            &&& !after.queued.contains_key(id)
        }),
{
    let id = completion.job_id@;
    let before = cron::state_of(d.jobs, id).occurrences;
    cron::lemma_occurrence_at(before, completion.sequence, 0);
    assert(cron::occurrence_at(before, completion.sequence, 0) == p);
    let s = completed(cron::state_of(d.jobs, id), completion, job, now);
    if d.queued.contains_key(id) {
        cron::lemma_occurrence_at(s.occurrences, d.queued[id], 0);
    }
}

/// When an execution ends, what waits for it begins where the job is still there and enabled, and is
/// skipped where not; where nothing waits, the job rests.
pub proof fn what_waits_begins_at_the_end(
    d: DaemonView,
    completion: JobCompletion,
    job: Option<CronJob>,
    now: i128,
    q: int,
)
    requires
        ({
            let id = completion.job_id@;
            let before = cron::state_of(d.jobs, id).occurrences;
            &&& d.queued.contains_key(id)
            &&& d.queued[id] != completion.sequence
            &&& 0 <= q < before.len()
            &&& before[q].sequence == d.queued[id]
            &&& forall|j: int| 0 <= j < q ==> (#[trigger] before[j]).sequence != d.queued[id]
        }),
    ensures
        ({
            let id = completion.job_id@;
            let before = cron::state_of(d.jobs, id).occurrences;
            let after = finished(d, completion, job, now);
            let all = after.jobs[id].occurrences;
            let goes_on = job is Some && job->0.enabled;
            &&& after.active.contains(id) == goes_on
            &&& goes_on ==> {
                &&& all[q].status == CronOccurrenceStatus::Running
                &&& all[q].started_at == Some(now)
                &&& follow_up(d, completion, job, now) matches Some(start) && start.id == id
                    && start.sequence == d.queued[id] && start.scheduled_at
                    == before[q].scheduled_at
            }
            &&& !goes_on ==> {
                &&& all[q].status == CronOccurrenceStatus::SkippedOverlap
                &&& all[q].completed_at == Some(now)
                &&& follow_up(d, completion, job, now) is None
            }
        }),
{
    let id = completion.job_id@;
    let before = cron::state_of(d.jobs, id).occurrences;
    cron::lemma_occurrence_at(before, completion.sequence, 0);
    let s = completed(cron::state_of(d.jobs, id), completion, job, now);
    cron::lemma_occurrence_at(s.occurrences, d.queued[id], 0);
    let at = cron::occurrence_at(s.occurrences, d.queued[id], 0);
    assert(s.occurrences[q].sequence == d.queued[id]);
    assert(at <= q);
    if at < q {
        assert(s.occurrences[at].sequence == before[at].sequence);
    }
}

/// A job that nothing waits for rests when its execution ends.
pub proof fn a_job_rests_at_the_end(
    d: DaemonView,
    completion: JobCompletion,
    job: Option<CronJob>,
    now: i128,
)
    requires
        !d.queued.contains_key(completion.job_id@),
    ensures
        !finished(d, completion, job, now).active.contains(completion.job_id@),
        follow_up(d, completion, job, now) is None,
{
}

/// A job for one time stands as its execution ended; one that comes again keeps no such mark.
pub proof fn a_one_time_job_stands_as_it_ended(
    s: JobStateView,
    completion: JobCompletion,
    job: CronJob,
    now: i128,
    t: int,
)
    ensures
        schedule::read_schedule(job.schedule@) == Ok::<ScheduleView, schedule::ScheduleFault>(
            ScheduleView::At(t),
        ) ==> {
            let mark = completed(s, completion, Some(job), now).one_time_status;
            &&& completion.status == CronOccurrenceStatus::Completed ==> mark == Some(
                OneTimeStatus::Completed,
            )
            &&& completion.status == CronOccurrenceStatus::Failed ==> mark == Some(
                OneTimeStatus::Failed,
            )
            &&& completion.status == CronOccurrenceStatus::TimedOut ==> mark == Some(
                OneTimeStatus::TimedOut,
            )
        },
        schedule::read_schedule(job.schedule@) == Ok::<ScheduleView, schedule::ScheduleFault>(
            ScheduleView::Reboot,
        ) ==> completed(s, completion, Some(job), now).one_time_status == s.one_time_status,
{
}

/// A job for one time expires where it was never begun and more than sixty whole seconds have gone by
/// since; else it stays as it stood. Its occurrences stay in any case.
pub proof fn a_missed_time_expires(s: JobStateView, at: int, now: int)
    ensures
        ({
            let after = expired(s, at, now);
            let pending = s.one_time_status is None || s.one_time_status == Some(
                OneTimeStatus::Pending,
            );
            &&& after.occurrences == s.occurrences
            &&& after.next_sequence == s.next_sequence
            &&& pending && s.occurrences.len() == 0 && now - at >= 61_000_000_000
                ==> after.one_time_status == Some(OneTimeStatus::Expired)
            &&& pending && (s.occurrences.len() > 0 || now - at < 61_000_000_000)
                ==> after.one_time_status == Some(OneTimeStatus::Pending)
            &&& !pending ==> after.one_time_status == s.one_time_status
        }),
{
}

/// What had ended stays when the daemon starts again; what ran has failed, and what waited is skipped.
pub proof fn recovery_ends_what_was_open(o: OccurrenceView, now: i128)
    ensures
        ({
            let after = recovered(o, now);
            &&& after.sequence == o.sequence && after.scheduled_at == o.scheduled_at
                && after.started_at == o.started_at && after.session_id == o.session_id
                && after.manual == o.manual && after.last_message == o.last_message
            &&& o.status == CronOccurrenceStatus::Running ==> after.status
                == CronOccurrenceStatus::Failed && after.completed_at == Some(now)
                && after.error is Some
            &&& o.status == CronOccurrenceStatus::Queued ==> after.status
                == CronOccurrenceStatus::SkippedOverlap && after.completed_at == Some(now)
                && after.error is Some
            &&& o.status != CronOccurrenceStatus::Running && o.status
                != CronOccurrenceStatus::Queued ==> after == o
        }),
{
}

/// Recovering keeps every job and every occurrence of it, in its place.
pub proof fn recovery_loses_nothing(jobs: Map<Seq<char>, JobStateView>, now: i128, id: Seq<char>)
    ensures
        recovered_jobs(jobs, now).contains_key(id) == jobs.contains_key(id),
        jobs.contains_key(id) ==> {
            let after = recovered_jobs(jobs, now)[id];
            &&& after.next_sequence == jobs[id].next_sequence
            &&& after.one_time_status == jobs[id].one_time_status
            &&& after.occurrences.len() == jobs[id].occurrences.len()
            &&& forall|i: int|
                0 <= i < after.occurrences.len() ==> #[trigger] after.occurrences[i] == recovered(
                    jobs[id].occurrences[i],
                    now,
                )
        },
{
}

/// An execution that is asked for begins: it becomes the last occurrence, running since now, as asked
/// for by a person.
pub proof fn a_run_on_request_begins(s: JobStateView, plan: ScheduleView, now: i128)
    ensures
        ({
            let after = begun(s, plan, now);
            &&& after.occurrences.len() == s.occurrences.len() + 1
            &&& forall|i: int|
                0 <= i < s.occurrences.len() ==> #[trigger] after.occurrences[i]
                    == s.occurrences[i]
            &&& is_new(after.occurrences.last(), next_number(s), now, true)
            &&& after.occurrences.last().status == CronOccurrenceStatus::Running
            &&& after.occurrences.last().started_at == Some(now)
            &&& next_number(s) < u64::MAX ==> after.next_sequence == next_number(s) + 1
        }),
{
}

/// In a round, an enabled job for one time whose time has come since the last round, not more than
/// sixty whole seconds ago, is started where it does not run, and does not expire.
pub proof fn a_one_time_job_starts_in_its_round(
    d: DaemonView,
    document: CronDocument,
    id: Seq<char>,
    job: CronJob,
    stamp: Seq<char>,
    t: i128,
    last_checked: i128,
    now: i128,
    at: i128,
)
    requires
        document.jobs.names() == seq![id],
        document.jobs.values() == seq![job],
        job.enabled,
        text::trimmed(job.schedule@) == "@at "@ + stamp,
        schedule::rfc3339_instant(text::trimmed(stamp)) == Ok::<int, Seq<char>>(t as int),
        last_checked < t <= now,
        now - t < 61_000_000_000,
        !d.active.contains(id),
    ensures
        ({
            let round = whole_round(d, document, false, Seq::empty(), last_checked, now, at);
            &&& round.fault is None
            &&& round.starts.len() == 1
            &&& round.starts[0].id == id
            &&& round.starts[0].scheduled_at == t
            &&& round.daemon.active.contains(id)
            &&& round.daemon.jobs[id].occurrences.last().status == CronOccurrenceStatus::Running
            &&& round.daemon.jobs[id].occurrences.last().scheduled_at == t
            &&& round.daemon.jobs[id].one_time_status != Some(OneTimeStatus::Expired)
                || cron::state_of(d.jobs, id).one_time_status == Some(OneTimeStatus::Expired)
        }),
{
    let names = document.jobs.names();
    let jobs = document.jobs.values();
    let zone = document.timezone@;
    let empty = Round { daemon: d, starts: Seq::empty(), fault: None };
    let requests = Seq::<ManualRunRequest>::empty();
    assert(after_requests(empty, document.jobs.map(), requests, 0, at) == empty);
    assert(after_jobs(empty, names, jobs, zone, 0, last_checked, now, at) == empty);
    assert(after_jobs(empty, names, jobs, zone, 1, last_checked, now, at) == after_job(
        empty,
        names[0],
        jobs[0],
        zone,
        last_checked,
        now,
        at,
    ));
    schedule::a_timestamp_is_read_as_it_stands(job.schedule@, stamp);
    schedule::a_one_time_job_is_due_when_its_time_has_come(
        job.schedule@,
        stamp,
        t as int,
        cron::zone_of(job, zone),
        last_checked as int,
        now as int,
    );
    let due = schedule::due_of(
        job.schedule@,
        cron::zone_of(job, zone),
        last_checked as int,
        now as int,
    )->Ok_0;
    assert(due.contains(t as int));
    assert(due.len() == 1 && due[0] == t);
    assert(with_due(empty, id, job.overlap, due, 0, at) == empty);
    assert(with_due(empty, id, job.overlap, due, 1, at) == with_occurrence(
        empty,
        id,
        job.overlap,
        t,
        false,
        at,
    ));
}

/// A job that is paused is left alone by a round, and so is a job whose time has not come.
pub proof fn a_round_leaves_what_is_not_due(
    r: Round,
    names: Seq<Seq<char>>,
    jobs: Seq<CronJob>,
    zone: Seq<char>,
    n: nat,
    last_checked: i128,
    now: i128,
    at: i128,
)
    requires
        n <= jobs.len(),
        n <= names.len(),
        forall|i: int| 0 <= i < n ==> !(#[trigger] jobs[i]).enabled,
    ensures
        after_jobs(r, names, jobs, zone, n, last_checked, now, at) == r,
        after_startup(r, names, jobs, n, now, at) == r,
    decreases n,
{
    if n > 0 {
        a_round_leaves_what_is_not_due(
            r,
            names,
            jobs,
            zone,
            (n - 1) as nat,
            last_checked,
            now,
            at,
        );
        assert(!jobs[n - 1].enabled);
    }
}

/// A request to run a job that there is schedules it now as asked for by a person, whether the job is
/// paused or not; a request for one that there is not does nothing.
pub proof fn a_request_runs_its_job(
    r: Round,
    jobs: Map<Seq<char>, CronJob>,
    request: ManualRunRequest,
    at: i128,
)
    requires
        r.fault is None,
    ensures
        ({
            let after = after_requests(r, jobs, seq![request], 1, at);
            let id = request.id@;
            &&& !jobs.contains_key(id) ==> after == r
            &&& jobs.contains_key(id) && !r.daemon.active.contains(id) ==> {
                &&& after.starts.len() == r.starts.len() + 1
                &&& after.starts.last().id == id
                &&& after.starts.last().scheduled_at == request.requested_at
                &&& after.daemon.active.contains(id)
                &&& after.daemon.jobs[id].occurrences.last().manual
                &&& after.daemon.jobs[id].occurrences.last().status
                    == CronOccurrenceStatus::Running
            }
            &&& jobs.contains_key(id) && r.daemon.active.contains(id) ==> after.starts == r.starts
                && after.daemon.jobs[id].occurrences.last().scheduled_at == request.requested_at
        }),
{
    let requests = seq![request];
    assert(after_requests(r, jobs, requests, 0, at) == r);
    assert(requests[0] == request);
}

/// A job that is to run when the daemon starts begins in its first round, once.
pub proof fn a_startup_job_begins_at_the_start(r: Round, id: Seq<char>, job: CronJob, now: i128, at: i128)
    requires
        r.fault is None,
        job.enabled,
        text::trimmed(job.schedule@) == "@reboot"@,
        !r.daemon.active.contains(id),
    ensures
        ({
            let after = after_startup(r, seq![id], seq![job], 1, now, at);
            &&& after.fault is None
            &&& after.starts.len() == r.starts.len() + 1
            &&& after.starts.last().id == id
            &&& after.starts.last().scheduled_at == now
            &&& after.daemon.active.contains(id)
            &&& schedule::due_of(job.schedule@, job.schedule@, now as int, at as int) == Ok::<
                Seq<int>,
                OccurrenceFault,
            >(Seq::empty())
        }),
{
    let jobs = seq![job];
    assert(after_startup(r, seq![id], jobs, 0, now, at) == r);
    assert(jobs[0] == job);
}

/// A person is told of a fault in the schedule when it comes up, not again while it stays the same,
/// and that all is well when it is gone.
pub proof fn a_fault_is_told_once(
    last: Option<String>,
    error: Option<&str>,
    r: (Option<String>, Option<String>),
)
    requires
        call_ensures(document_notice, (&last, error), r),
    ensures
        error is Some <==> r.0 is Some,
        error matches Some(e) ==> (r.0 matches Some(k) && k@ == e@),
        error matches Some(e) ==> (r.1 is Some <==> !(last matches Some(l) && l@ == e@)),
        error is None ==> (r.1 is Some <==> last is Some),
        error matches Some(e) ==> (r.1 matches Some(n) ==> text::finishes_with(n@, e@)),
{
    if let Some(e) = error {
        let n = "Cron scheduling paused: "@ + e@;
        assert(n.subrange(n.len() - e@.len(), n.len() as int) == e@);
    }
}

} // verus!
