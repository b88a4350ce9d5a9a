//! The scheduled jobs as a person sees them.
use crate::autostart::{CronDaemonStatus, CronInstallationView};
use crate::cron;
use crate::cron::{CronDocument, CronJobView, CronRuntimeState};
use crate::json;
use crate::json::{Json, JsonView};
use crate::message;
use crate::paths::Platform;
use crate::payload;
use crate::text;
use vstd::prelude::*;
use vstd::string::*;

verus! {

/// What was read of the file with the scheduled jobs.
#[derive(Debug)]
pub enum DocumentRead {
    /// The file could not be read.
    Unreadable(String),
    /// The file holds something else.
    Invalid(String),
    /// The file holds this.
    Read(CronDocument),
}

/// Why there is no document in a file, where there is none.
pub open spec fn read_fault(platform: Platform, path: Seq<char>, read: DocumentRead) -> Option<
    Seq<char>,
> {
    match read {
        DocumentRead::Unreadable(e) => Some("cannot read "@ + path + ": "@ + e@),
        DocumentRead::Invalid(e) => Some(path + " is not valid cron JSON: "@ + e@),
        DocumentRead::Read(d) => match cron::document_fault(platform, d) {
            Some(fault) => Some(fault.text()),
            None => None,
        },
    }
}

/// The document in a file.
pub fn load_document(platform: Platform, path: &str, read: DocumentRead) -> (r: Result<
    CronDocument,
    String,
>)
    requires
        read matches DocumentRead::Read(d) ==> d.wf(),
    ensures
        match read_fault(platform, path@, read) {
            Some(m) => r matches Err(e) && e@ == m,
            None => r matches Ok(d) && read == DocumentRead::Read(d),
        },
{
    match read {
        DocumentRead::Unreadable(e) => Err(text::cat4("cannot read ", path, ": ", &e)),
        DocumentRead::Invalid(e) => Err(text::cat3(path, " is not valid cron JSON: ", &e)),
        DocumentRead::Read(d) => match d.validate(platform) {
            Ok(()) => Ok(d),
            Err(e) => Err(e.message()),
        },
    }
}

/// What may be said of a document.
pub open spec fn document_names() -> Seq<Seq<char>> {
    seq!["version"@, "timezone"@, "jobs"@]
}

/// What may be said of a job.
pub open spec fn job_names() -> Seq<Seq<char>> {
    seq![
        "schedule"@,
        "enabled"@,
        "project"@,
        "prompt"@,
        "provider"@,
        "model"@,
        "reasoning"@,
        "speed"@,
        "timezone"@,
        "overlap"@,
        "timeout_seconds"@,
        "source_session_id"@,
    ]
}

/// Names between backquotes.
pub open spec fn ticked(names: Seq<Seq<char>>) -> Seq<Seq<char>> {
    Seq::new(names.len(), |i: int| "`"@ + names[i] + "`"@)
}

/// What a person is told of a field that is none of some.
pub open spec fn unknown_field(name: Seq<char>, names: Seq<Seq<char>>) -> Seq<char> {
    "unknown field `"@ + name + "`, expected one of "@ + text::joined(ticked(names), ", "@)
}

fn unknown_field_text(name: &str, names: &Vec<String>) -> (s: String)
    ensures
        s@ == unknown_field(name@, text::views(names@)),
{
    let ghost views = text::views(names@);
    let mut shown = text::no_texts();
    let mut i: usize = 0;
    assert(text::views(shown@) == ticked(views).take(0));
    while i < names.len()
        invariant
            i <= names@.len(),
            views == text::views(names@),
            text::views(shown@) == ticked(views).take(i as int),
        decreases names@.len() - i,
    {
        assert(views[i as int] == names@[i as int]@);
        shown = text::with(shown, &text::cat3("`", &names[i], "`"));
        assert(text::views(shown@) == ticked(views).take(i + 1));
        i += 1;
    }
    assert(ticked(views).take(i as int) == ticked(views));
    text::cat4("unknown field `", name, "`, expected one of ", &text::join(&shown, ", "))
}

/// What is wrong with the first field of a job, at or after the `i`th, that no job has.
pub open spec fn stray_of_job(fields: payload::Fields, i: int) -> Option<Seq<char>>
    decreases fields.len() - i,
{
    if i >= fields.len() {
        None
    } else if !job_names().contains(fields[i].0) {
        Some(unknown_field(fields[i].0, job_names()))
    } else {
        stray_of_job(fields, i + 1)
    }
}

/// What is wrong with the first field of the jobs, from the `i`th on, that no job has.
pub open spec fn stray_of_jobs(jobs: payload::Fields, i: int) -> Option<Seq<char>>
    decreases jobs.len() - i,
{
    if i >= jobs.len() {
        None
    } else {
        match jobs[i].1 {
            JsonView::Object(fields) if stray_of_job(fields, 0) is Some => stray_of_job(fields, 0),
            _ => stray_of_jobs(jobs, i + 1),
        }
    }
}

/// What is wrong with the first field of a document, from the `i`th on, that no document or job has.
pub open spec fn stray_of_document(fields: payload::Fields, i: int) -> Option<Seq<char>>
    decreases fields.len() - i,
{
    if i >= fields.len() {
        None
    } else if !document_names().contains(fields[i].0) {
        Some(unknown_field(fields[i].0, document_names()))
    } else {
        match fields[i].1 {
            JsonView::Object(jobs) if fields[i].0 == "jobs"@ && stray_of_jobs(jobs, 0) is Some =>
                stray_of_jobs(jobs, 0),
            _ => stray_of_document(fields, i + 1),
        }
    }
}

/// What is wrong with the first field of what a file says that no document or job has.
pub open spec fn stray_field(said: JsonView) -> Option<Seq<char>> {
    match said {
        JsonView::Object(fields) => stray_of_document(fields, 0),
        _ => None,
    }
}

fn known_of_document() -> (r: Vec<String>)
    ensures
        text::views(r@) == document_names(),
{
    let r = text::with(text::no_texts(), "version");
    let r = text::with(r, "timezone");
    let r = text::with(r, "jobs");
    assert(text::views(r@) == document_names());
    r
}

fn known_of_job() -> (r: Vec<String>)
    ensures
        text::views(r@) == job_names(),
{
    let r = text::with(text::no_texts(), "schedule");
    let r = text::with(r, "enabled");
    let r = text::with(r, "project");
    let r = text::with(r, "prompt");
    let r = text::with(r, "provider");
    let r = text::with(r, "model");
    let r = text::with(r, "reasoning");
    let r = text::with(r, "speed");
    let r = text::with(r, "timezone");
    let r = text::with(r, "overlap");
    let r = text::with(r, "timeout_seconds");
    let r = text::with(r, "source_session_id");
    assert(text::views(r@) == job_names());
    r
}

fn is_job_name(name: &str) -> (r: bool)
    ensures
        r == job_names().contains(name@),
{
    let r = text::same(name, "schedule") || text::same(name, "enabled") || text::same(
        name,
        "project",
    ) || text::same(name, "prompt") || text::same(name, "provider") || text::same(name, "model")
        || text::same(name, "reasoning") || text::same(name, "speed") || text::same(
        name,
        "timezone",
    ) || text::same(name, "overlap") || text::same(name, "timeout_seconds") || text::same(
        name,
        "source_session_id",
    );
    proof {
        let all = job_names();
        assert(all[0] == "schedule"@ && all[1] == "enabled"@ && all[2] == "project"@);
        assert(all[3] == "prompt"@ && all[4] == "provider"@ && all[5] == "model"@);
        assert(all[6] == "reasoning"@ && all[7] == "speed"@ && all[8] == "timezone"@);
        assert(all[9] == "overlap"@ && all[10] == "timeout_seconds"@);
        assert(all[11] == "source_session_id"@);
    }
    r
}

fn find_stray_of_job(fields: &Vec<(String, Json)>) -> (r: Option<String>)
    ensures
        message::opt_view(r) == stray_of_job(json::field_views(fields@), 0),
{
    let ghost views = json::field_views(fields@);
    proof {
        json::lemma_field_views(fields@);
    }
    let mut i: usize = 0;
    while i < fields.len()
        invariant
            i <= fields@.len(),
            views == json::field_views(fields@),
            views.len() == fields@.len(),
            stray_of_job(views, 0) == stray_of_job(views, i as int),
        decreases fields@.len() - i,
    {
        proof {
            json::lemma_field_views(fields@);
            assert(views[i as int].0 == fields@[i as int].0@);
        }
        if !is_job_name(&fields[i].0) {
            return Some(unknown_field_text(&fields[i].0, &known_of_job()));
        }
        i += 1;
    }
    None
}

fn find_stray_of_jobs(jobs: &Vec<(String, Json)>) -> (r: Option<String>)
    ensures
        message::opt_view(r) == stray_of_jobs(json::field_views(jobs@), 0),
{
    let ghost views = json::field_views(jobs@);
    proof {
        json::lemma_field_views(jobs@);
    }
    let mut i: usize = 0;
    while i < jobs.len()
        invariant
            i <= jobs@.len(),
            views == json::field_views(jobs@),
            views.len() == jobs@.len(),
            stray_of_jobs(views, 0) == stray_of_jobs(views, i as int),
        decreases jobs@.len() - i,
    {
        proof {
            json::lemma_field_views(jobs@);
            assert(views[i as int].0 == jobs@[i as int].0@);
        }
        if let Json::Object(fields) = &jobs[i].1 {
            let found = find_stray_of_job(fields);
            if found.is_some() {
                return found;
            }
        }
        i += 1;
    }
    None
}

fn find_stray(fields: &Vec<(String, Json)>) -> (r: Option<String>)
    ensures
        message::opt_view(r) == stray_of_document(json::field_views(fields@), 0),
{
    let ghost views = json::field_views(fields@);
    proof {
        json::lemma_field_views(fields@);
    }
    let mut i: usize = 0;
    while i < fields.len()
        invariant
            i <= fields@.len(),
            views == json::field_views(fields@),
            views.len() == fields@.len(),
            stray_of_document(views, 0) == stray_of_document(views, i as int),
        decreases fields@.len() - i,
    {
        proof {
            json::lemma_field_views(fields@);
            assert(views[i as int].0 == fields@[i as int].0@);
        }
        proof {
            let all = document_names();
            assert(all[0] == "version"@ && all[1] == "timezone"@ && all[2] == "jobs"@);
        }
        let name = &fields[i].0;
        if !(text::same(name, "version") || text::same(name, "timezone") || text::same(name, "jobs")) {
            return Some(unknown_field_text(name, &known_of_document()));
        }
        if text::same(name, "jobs") {
            if let Json::Object(jobs) = &fields[i].1 {
                let found = find_stray_of_jobs(jobs);
                if found.is_some() {
                    return found;
                }
            }
        }
        i += 1;
    }
    None
}

/// Refuses what a file says where a field of it is none of a document or a job.
pub fn check_fields(said: &Json) -> (r: Result<(), String>)
    ensures
        match stray_field(said@) {
            None => r is Ok,
            Some(m) => r matches Err(e) && e@ == m,
        },
{
    match said {
        Json::Object(fields) => match find_stray(fields) {
            Some(m) => Err(m),
            None => Ok(()),
        },
        _ => Ok(()),
    }
}

/// The scheduled jobs, with all that is told of them.
#[derive(Debug)]
pub struct CronSnapshot {
    pub path: String,
    pub daemon: CronDaemonStatus,
    pub document: CronDocument,
    pub jobs: Vec<CronJobView>,
    pub installation: CronInstallationView,
}

/// Whether jobs are shown as they stand in a document and in what is known of their runs.
pub open spec fn jobs_shown(
    jobs: Seq<CronJobView>,
    document: CronDocument,
    state: CronRuntimeState,
    now: int,
) -> bool {
    &&& jobs.len() == document.jobs.names().len()
    &&& forall|i: int|
        0 <= i < jobs.len() ==> cron::shows(
            #[trigger] jobs[i],
            document.jobs.names()[i],
            document.jobs.values()[i],
            document.timezone@,
            now,
            cron::state_views(state.jobs.map()),
        )
}

/// The scheduled jobs at `now`, or the first thing that went wrong with finding out about them: with
/// the document, what is known of the runs, a job, the daemon or the automatic start.
pub fn snapshot(
    path: String,
    document: Result<CronDocument, String>,
    state: Result<CronRuntimeState, String>,
    daemon: Result<CronDaemonStatus, String>,
    installation: Result<CronInstallationView, String>,
    now: i128,
) -> (r: Result<CronSnapshot, String>)
    requires
        document matches Ok(d) ==> d.wf(),
        state matches Ok(s) ==> s.wf(),
    ensures
        match (document, state) {
            (Err(e), _) => r == Err::<CronSnapshot, String>(e),
            (_, Err(e)) => r == Err::<CronSnapshot, String>(e),
            (Ok(d), Ok(s)) => match (
                cron::show_fault(d.jobs.values(), d.timezone@, now as int, 0),
                daemon,
                installation,
            ) {
                (Some(fault), _, _) => r matches Err(e) && e@ == fault.text(),
                (_, Err(e), _) => r == Err::<CronSnapshot, String>(e),
                (_, _, Err(e)) => r == Err::<CronSnapshot, String>(e),
                (None, Ok(running), Ok(installed)) => {
                    &&& r matches Ok(shown)
                    &&& shown.path == path
                    &&& shown.daemon == running
                    &&& shown.document == d
                    &&& shown.installation == installed
                    &&& jobs_shown(shown.jobs@, d, s, now as int)
                },
            },
        },
{
    let document = document?;
    let state = state?;
    let jobs = match cron::job_views(&document, &state, now) {
        Ok(jobs) => jobs,
        Err(e) => {
            return Err(e.message());
        },
    };
    let daemon = daemon?;
    let installation = installation?;
    Ok(CronSnapshot { path, daemon, document, jobs, installation })
}

// ---------------------------------------------------------------------------
// Laws
/// A file is refused exactly where it cannot be read, holds something else, or holds a document with a
/// fault.
pub proof fn a_sound_document_is_read(platform: Platform, path: Seq<char>, read: DocumentRead)
    ensures
        read_fault(platform, path, read) is None <==> (read matches DocumentRead::Read(d)
            && cron::document_fault(platform, d) is None),
{
}

proof fn lemma_stray_of_job(fields: payload::Fields, from: int)
    requires
        0 <= from <= fields.len(),
    ensures
        stray_of_job(fields, from) is None <==> forall|i: int|
            from <= i < fields.len() ==> job_names().contains((#[trigger] fields[i]).0),
    decreases fields.len() - from,
{
    if from < fields.len() {
        lemma_stray_of_job(fields, from + 1);
        if job_names().contains(fields[from].0) {
            assert(stray_of_job(fields, from) == stray_of_job(fields, from + 1));
            assert forall|i: int|
                stray_of_job(fields, from + 1) is None && from <= i
                    < fields.len() implies job_names().contains((#[trigger] fields[i]).0) by {}
        }
    }
}

/// A job is taken exactly where every field of it is one that jobs have.
pub proof fn jobs_have_known_fields(fields: payload::Fields)
    ensures
        stray_of_job(fields, 0) is None <==> forall|i: int|
            0 <= i < fields.len() ==> job_names().contains((#[trigger] fields[i]).0),
{
    lemma_stray_of_job(fields, 0);
}

/// A field that no document has refuses what a file says, and so does a field of a job that no job
/// has; its name is told.
pub proof fn an_unknown_field_is_told(fields: payload::Fields, i: int)
    requires
        0 <= i < fields.len(),
        !(fields[i].0 == "version"@ || fields[i].0 == "timezone"@ || fields[i].0 == "jobs"@),
    ensures
        stray_field(JsonView::Object(fields)) is Some,
{
    lemma_stray_of_document(fields, 0, i);
}

proof fn lemma_stray_of_document(fields: payload::Fields, from: int, i: int)
    requires
        0 <= from <= i < fields.len(),
        !(fields[i].0 == "version"@ || fields[i].0 == "timezone"@ || fields[i].0 == "jobs"@),
    ensures
        stray_of_document(fields, from) is Some,
    decreases i - from,
{
    if from < i {
        lemma_stray_of_document(fields, from + 1, i);
    } else {
        let names = document_names();
        assert(!names.contains(fields[i].0)) by {
            if names.contains(fields[i].0) {
                let k = choose|k: int| 0 <= k < names.len() && names[k] == fields[i].0;
                assert(k == 0 || k == 1 || k == 2);
            }
        }
    }
}

/// What holds only the three fields of a document is taken where its jobs are; what is no object is
/// left to the reader.
pub proof fn a_plain_document_is_taken(
    version: JsonView,
    zone: JsonView,
    jobs: payload::Fields,
    other: JsonView,
)
    ensures
        stray_field(
            JsonView::Object(
                seq![
                    ("jobs"@, JsonView::Object(jobs)),
                    ("timezone"@, zone),
                    ("version"@, version),
                ],
            ),
        ) == stray_of_jobs(jobs, 0),
        !(other is Object) ==> stray_field(other) is None,
{
    reveal_strlit("jobs");
    reveal_strlit("timezone");
    reveal_strlit("version");
    assert("jobs"@.len() == 4 && "timezone"@.len() == 8 && "version"@.len() == 7);
    reveal_with_fuel(stray_of_document, 4);
    let names = document_names();
    assert(names[0] == "version"@ && names[1] == "timezone"@ && names[2] == "jobs"@);
    assert(names.contains("version"@) && names.contains("timezone"@) && names.contains("jobs"@));
}

/// The jobs of a document are taken exactly where each of them is.
pub proof fn jobs_are_taken_one_by_one(jobs: payload::Fields, from: int)
    requires
        0 <= from <= jobs.len(),
    ensures
        stray_of_jobs(jobs, from) is None <==> forall|i: int|
            from <= i < jobs.len() ==> ((#[trigger] jobs[i]).1 matches JsonView::Object(fields)
                ==> stray_of_job(fields, 0) is None),
    decreases jobs.len() - from,
{
    if from < jobs.len() {
        jobs_are_taken_one_by_one(jobs, from + 1);
        if let JsonView::Object(fields) = jobs[from].1 {
            if stray_of_job(fields, 0) is Some {
                assert(stray_of_jobs(jobs, from) is Some);
            }
        }
    }
}

/// What may be said of a job: when and whether it runs, where, with what, and for how long.
pub proof fn what_may_be_said_of_a_job(name: Seq<char>)
    ensures
        job_names().contains(name) <==> name == "schedule"@ || name == "enabled"@ || name
            == "project"@ || name == "prompt"@ || name == "provider"@ || name == "model"@ || name
            == "reasoning"@ || name == "speed"@ || name == "timezone"@ || name == "overlap"@ || name
            == "timeout_seconds"@ || name == "source_session_id"@,
{
    let n = job_names();
    assert(n[0] == "schedule"@ && n[1] == "enabled"@ && n[2] == "project"@ && n[3] == "prompt"@);
    assert(n[4] == "provider"@ && n[5] == "model"@ && n[6] == "reasoning"@ && n[7] == "speed"@);
    assert(n[8] == "timezone"@ && n[9] == "overlap"@ && n[10] == "timeout_seconds"@ && n[11]
        == "source_session_id"@);
    if n.contains(name) {
        let k = choose|k: int| 0 <= k < n.len() && n[k] == name;
        assert(0 <= k < 12);
    }
}

} // verus!
