use codecrab::autostart::{
    agent_contents, begin_install, check_install, check_removal, daemon_status, default_cron_path,
    installation_id, installation_view, manual_autostart_instructions, needs_rollback,
    platform_install, runtime_directory_for, service_name, systemd_quote, unit_contents,
    xml_escape, CronDaemonStatus, CronInstallationStatus, InstallStep,
};
use codecrab::catalog::{ModelCatalogEntry, ReasoningOption};
use codecrab::cron::{
    action_token, check_state_version, due_occurrences, enabled_by_default,
    first_occurrence_sequence, job_views, next_occurrences, proposal_token, validate_job_id,
    CronDocument, CronError, CronJob, CronJobState, CronOccurrence, CronOccurrenceStatus,
    CronRuntimeState, OneTimeStatus, OverlapPolicy,
};
use codecrab::daemon::{
    document_notice, one_time_status_for, take_manual_requests, Daemon, JobCompletion,
    ManualRunRequest,
};
use codecrab::execution::{Execution, JobAction, JobEvent, JobTurnResult};
use codecrab::json::parse_json;
use codecrab::overview::{check_fields, load_document, DocumentRead};
use codecrab::paths::Platform;
use codecrab::schedule::{accepts, describe_schedule, in_calendar, parse_schedule, parse_time_zone, ParsedSchedule};
use codecrab::autostart::{
    artifact_path, command_failure, install_command, rollback_context, step_purpose, taken_message,
    way_to_run, Executor, RunWay,
};
use codecrab::removal::{
    begin_uninstall, install_end, platform_registration_exists, platform_uninstall,
    registration_command, removed_artifact, removed_name, uninstall_command, uninstall_purpose,
    InstallEnd, UninstallStep,
};
use codecrab::cron::{resolved_schedule_path, schedule_place, PlaceAction};

const SECOND: i128 = 1_000_000_000;

fn at(text: &str) -> i128 {
    chrono::DateTime::parse_from_rfc3339(text)
        .unwrap()
        .timestamp_nanos_opt()
        .unwrap() as i128
}

fn job(schedule: &str) -> CronJob {
    CronJob {
        schedule: schedule.to_owned(),
        enabled: true,
        project: "/work/project".to_owned(),
        prompt: "Run the report".to_owned(),
        provider: "openai".to_owned(),
        model: "gpt-test".to_owned(),
        reasoning: Some("high".to_owned()),
        speed: Some("fast".to_owned()),
        timezone: None,
        overlap: OverlapPolicy::Skip,
        timeout_seconds: None,
        source_session_id: None,
    }
}

fn bytes(job: &CronJob) -> Vec<u8> {
    format!("{job:?}").into_bytes()
}

#[test]
fn document_uses_jobs_keyed_by_id_and_rejects_unknown_fields() {
    let said = parse_json(
        r#"{
            "version": 1,
            "timezone": "Europe/Madrid",
            "jobs": {
                "weekly-report": {
                    "schedule": "0 3 * * 2",
                    "project": "/work",
                    "prompt": "Run the report",
                    "provider": "openai",
                    "model": "gpt-test"
                }
            }
        }"#,
    )
    .unwrap();
    check_fields(&said).unwrap();
    let mut document = CronDocument::empty("Europe/Madrid".to_owned());
    assert_eq!(document.version, 1);
    let mut report = job("0 3 * * 2");
    report.reasoning = None;
    report.speed = None;
    document.jobs.insert("weekly-report", report);
    document.validate(Platform::Linux).unwrap();
    assert!(document.jobs.contains("weekly-report"));
    assert!(enabled_by_default());

    let said = parse_json(
        r#"{"version": 1, "timezone": "UTC", "unknown": true, "jobs": {}}"#,
    )
    .unwrap();
    let error = check_fields(&said).unwrap_err();
    assert!(error.contains("unknown field"));
    assert_eq!(error, "unknown field `unknown`, expected one of `version`, `timezone`, `jobs`");
    let said = parse_json(r#"{"version": 1, "jobs": {"a": {"prompt": "", "when": 1}}}"#).unwrap();
    assert_eq!(
        check_fields(&said).unwrap_err(),
        "unknown field `when`, expected one of `schedule`, `enabled`, `project`, `prompt`, \
         `provider`, `model`, `reasoning`, `speed`, `timezone`, `overlap`, `timeout_seconds`, \
         `source_session_id`"
    );
}

#[test]
fn cron_is_five_field_and_at_is_absolute() {
    assert!(parse_schedule("0 3 * * 2").is_ok());
    assert!(parse_schedule("@weekly").is_ok());
    assert!(matches!(
        parse_schedule("@reboot").unwrap(),
        ParsedSchedule::Reboot
    ));
    assert!(parse_schedule("0 0 3 * * 2").is_err());
    assert!(parse_schedule("@at 2030-01-02T03:04:05+01:00").is_ok());
    assert!(parse_schedule("@at tomorrow").is_err());
    let mut relative = job("@daily");
    relative.project = "relative-project".to_owned();
    assert!(relative.validate(Platform::Linux, "UTC").is_err());
}

#[test]
fn next_occurrences_honor_the_named_timezone() {
    let after = at("2026-08-02T00:00:00Z");
    let next = next_occurrences(&job("0 3 * * *"), "Europe/Madrid", after, 2).unwrap();
    assert_eq!(next[0], at("2026-08-02T01:00:00+00:00"));
    assert_eq!(next[1], at("2026-08-03T01:00:00+00:00"));
}

#[test]
fn daylight_saving_gaps_are_skipped_and_repeated_times_run_once() {
    let before_spring_gap = at("2026-03-28T23:00:00Z");
    let spring =
        next_occurrences(&job("30 2 * * *"), "Europe/Madrid", before_spring_gap, 1).unwrap();
    assert_eq!(spring[0], at("2026-03-30T00:30:00+00:00"));

    let before_fall_repeat = at("2026-10-24T23:00:00Z");
    let fall =
        next_occurrences(&job("30 2 * * *"), "Europe/Madrid", before_fall_repeat, 2).unwrap();
    assert_eq!(fall[0], at("2026-10-25T00:30:00+00:00"));
    assert_eq!(fall[1], at("2026-10-26T01:30:00+00:00"));
}

#[test]
fn a_direct_execution_lock_is_not_reported_as_a_persistent_daemon() {
    assert_eq!(daemon_status(true, true), CronDaemonStatus::Stopped);
    assert_eq!(daemon_status(true, false), CronDaemonStatus::Running);
    assert_eq!(daemon_status(false, false), CronDaemonStatus::Stopped);
}

#[test]
fn missed_occurrences_are_omitted_and_overdue_one_time_jobs_expire() {
    let now = at("2026-08-02T12:00:30Z");
    let after = at("2026-08-02T02:00:00Z");
    let due = due_occurrences(&job("* * * * *"), "UTC", after, now).unwrap();
    assert_eq!(due.len(), 1);
    assert_eq!(due[0], at("2026-08-02T12:00:00+00:00"));

    let mut state = CronRuntimeState::new();
    let one_time = job("@at 2026-08-02T11:00:00Z");
    state.expire_one_time_if_needed("late", &one_time, now).unwrap();
    let late = state.jobs.get("late").unwrap();
    assert_eq!(late.one_time_status, Some(OneTimeStatus::Expired));
    assert!(late.occurrences.is_empty());
}

fn occurrence(sequence: u64, at: i128, status: CronOccurrenceStatus) -> CronOccurrence {
    CronOccurrence {
        sequence,
        scheduled_at: at,
        status,
        started_at: if status == CronOccurrenceStatus::Running { Some(at) } else { None },
        completed_at: None,
        session_id: None,
        last_message: None,
        error: None,
        manual: false,
    }
}

fn running_and_queued(now: i128) -> CronRuntimeState {
    let mut state = CronRuntimeState::new();
    state.jobs.insert(
        "report",
        CronJobState {
            next_sequence: 3,
            one_time_status: None,
            occurrences: vec![
                occurrence(1, now, CronOccurrenceStatus::Running),
                occurrence(2, now + 60 * SECOND, CronOccurrenceStatus::Queued),
            ],
        },
    );
    state
}

#[test]
fn interrupted_running_and_queued_occurrences_are_terminal_after_restart() {
    let now = codecrab::clock::now();
    let mut state = running_and_queued(now);

    assert!(state.recover_interrupted_occurrences(now));

    let occurrences = &state.jobs.get("report").unwrap().occurrences;
    assert_eq!(occurrences[0].status, CronOccurrenceStatus::Failed);
    assert_eq!(occurrences[1].status, CronOccurrenceStatus::SkippedOverlap);
    assert!(occurrences.iter().all(|run| run.completed_at.is_some()));
    assert!(!state.recover_interrupted_occurrences(now));
}

#[test]
fn proposal_token_covers_every_job_setting() {
    let first = job("@daily");
    let mut changed = first.clone();
    changed.prompt = "A different task".to_owned();
    assert_eq!(
        proposal_token("report", &bytes(&first), None),
        proposal_token("report", &bytes(&first), None)
    );
    assert_ne!(
        proposal_token("report", &bytes(&first), None),
        proposal_token("report", &bytes(&changed), None)
    );
    assert_ne!(
        proposal_token("report", &bytes(&first), None),
        proposal_token("report", &bytes(&first), Some(&bytes(&changed)))
    );
}

#[test]
fn confirmation_tokens_cannot_mutate_a_job_that_changed_after_preview() {
    let mut document = CronDocument::empty("UTC".to_owned());
    let original = job("@daily");
    document.upsert(Platform::Linux, "report", original.clone()).unwrap();
    let delete_token = action_token("delete", "report", &bytes(&original));
    let proposed = job("@weekly");
    let schedule_token = proposal_token("report", &bytes(&proposed), Some(&bytes(&original)));
    let mut changed = original;
    changed.prompt = "Changed after preview".to_owned();
    let now_stored = bytes(&changed);
    document.upsert(Platform::Linux, "report", changed).unwrap();

    assert!(document
        .delete_confirmed("report", &delete_token, &now_stored)
        .is_err());
    assert!(document.jobs.contains("report"));
    let proposed_bytes = bytes(&proposed);
    assert!(document
        .upsert_confirmed(
            Platform::Linux,
            "report",
            proposed,
            &schedule_token,
            &proposed_bytes,
            Some(&now_stored)
        )
        .is_err());
}

#[test]
fn confirmed_changes_of_what_was_previewed_are_made() {
    let mut document = CronDocument::empty("UTC".to_owned());
    let original = job("@daily");
    let stored = bytes(&original);
    document.upsert(Platform::Linux, "report", original).unwrap();
    let pause = action_token("enabled:false", "report", &stored);
    document
        .set_enabled_confirmed("report", false, &pause, &stored)
        .unwrap();
    assert!(!document.jobs.get("report").unwrap().enabled);
    let delete = action_token("delete", "report", &stored);
    document.delete_confirmed("report", &delete, &stored).unwrap();
    assert!(!document.jobs.contains("report"));
    assert!(!document.delete("report"));
    assert!(matches!(
        document.set_enabled("report", true),
        Err(CronError::MissingJob(_))
    ));
}

#[test]
fn queue_overlap_keeps_only_the_newest_pending_occurrence() {
    let mut daemon = Daemon::new(CronRuntimeState::new());
    daemon.active.insert("report", ());
    let first_at = codecrab::clock::now();
    let second_at = first_at + 60 * SECOND;

    daemon.schedule_occurrence("report", OverlapPolicy::Queue, first_at, false, first_at);
    daemon.schedule_occurrence("report", OverlapPolicy::Queue, second_at, false, first_at);

    let occurrences = &daemon.state.jobs.get("report").unwrap().occurrences;
    assert_eq!(occurrences[0].status, CronOccurrenceStatus::SkippedOverlap);
    assert_eq!(occurrences[1].status, CronOccurrenceStatus::Queued);
    assert_eq!(daemon.queued.get("report"), Some(&occurrences[1].sequence));
    assert!(occurrences[0]
        .error
        .as_deref()
        .unwrap()
        .contains("newer queued occurrence"));
}

fn completion(status: CronOccurrenceStatus) -> JobCompletion {
    JobCompletion {
        job_id: "report".to_owned(),
        sequence: 1,
        status,
        session_id: None,
        last_message: None,
        error: None,
    }
}

#[test]
fn queued_occurrence_is_skipped_when_job_is_paused_before_it_starts() {
    let mut recurring = job("* * * * *");
    recurring.enabled = false;
    let now = codecrab::clock::now();
    let mut daemon = Daemon::new(running_and_queued(now));
    daemon.active.insert("report", ());
    daemon.queued.insert("report", 2);

    let started = daemon.finish_occurrence(
        &completion(CronOccurrenceStatus::Completed),
        Some(&recurring),
        now,
    );

    assert!(started.is_none());
    let occurrences = &daemon.state.jobs.get("report").unwrap().occurrences;
    assert_eq!(occurrences[0].status, CronOccurrenceStatus::Completed);
    assert_eq!(occurrences[1].status, CronOccurrenceStatus::SkippedOverlap);
    assert!(!daemon.active.contains("report"));
    assert!(!daemon.queued.contains("report"));
}

#[test]
fn a_queued_occurrence_starts_when_the_running_one_ends() {
    let now = codecrab::clock::now();
    let mut daemon = Daemon::new(running_and_queued(now));
    daemon.active.insert("report", ());
    daemon.queued.insert("report", 2);
    let started = daemon.finish_occurrence(
        &completion(CronOccurrenceStatus::Failed),
        Some(&job("* * * * *")),
        now,
    );
    assert_eq!(started.unwrap().sequence, 2);
    assert!(daemon.active.contains("report"));
    let occurrences = &daemon.state.jobs.get("report").unwrap().occurrences;
    assert_eq!(occurrences[1].status, CronOccurrenceStatus::Running);
}

#[test]
fn a_round_starts_what_is_due_and_what_is_asked_for() {
    let now = at("2026-08-02T12:00:30Z");
    let before = at("2026-08-02T11:59:30Z");
    let mut document = CronDocument::empty("UTC".to_owned());
    document.upsert(Platform::Linux, "due", job("* * * * *")).unwrap();
    let mut paused = job("* * * * *");
    paused.enabled = false;
    document.upsert(Platform::Linux, "paused", paused).unwrap();
    document.upsert(Platform::Linux, "asked", job("@reboot")).unwrap();
    let mut daemon = Daemon::new(CronRuntimeState::new());
    let requests = vec![
        ManualRunRequest { id: "asked".to_owned(), requested_at: now },
        ManualRunRequest { id: "unknown".to_owned(), requested_at: now },
    ];
    let (starts, error) = daemon.round(&document, false, &requests, before, now, now);
    assert!(error.is_none());
    let mut ids: Vec<String> = starts.into_iter().map(|start| start.id).collect();
    ids.sort();
    assert_eq!(ids, vec!["asked".to_owned(), "due".to_owned()]);
}

#[test]
fn names_versions_and_zones_are_checked() {
    assert!(validate_job_id("weekly-report_2"));
    assert!(!validate_job_id(""));
    assert!(!validate_job_id("../x"));
    assert!(check_state_version(1).is_ok());
    assert_eq!(
        check_state_version(9).unwrap_err(),
        "unsupported cron runtime state version 9; expected 1"
    );
    assert!(parse_time_zone("Europe/Madrid"));
    assert!(!parse_time_zone("Nowhere/Never"));
    assert_eq!(
        CronDocument::empty("Nowhere/Never".to_owned())
            .validate(Platform::Linux)
            .unwrap_err()
            .message(),
        "unknown IANA time zone \"Nowhere/Never\": failed to parse timezone"
    );
    assert_eq!(first_occurrence_sequence(), 1);
    assert!(describe_schedule("@reboot", "UTC").is_ok());
    assert_eq!(
        one_time_status_for(CronOccurrenceStatus::TimedOut),
        OneTimeStatus::TimedOut
    );
}

#[test]
fn jobs_are_shown_with_what_is_next() {
    let mut document = CronDocument::empty("UTC".to_owned());
    document.upsert(Platform::Linux, "report", job("0 3 * * *")).unwrap();
    let now = at("2026-08-02T00:00:00Z");
    let views = job_views(&document, &CronRuntimeState::new(), now).unwrap();
    assert_eq!(views.len(), 1);
    assert_eq!(views[0].next_occurrences[0], at("2026-08-02T03:00:00Z"));
}

#[test]
fn requests_are_taken_in_the_order_of_their_files() {
    let names: Vec<String> = ["b.json", "a.json", "c.tmp", ".json"]
        .iter()
        .map(|name| name.to_string())
        .collect();
    assert_eq!(
        take_manual_requests(&names),
        vec!["a.json".to_owned(), "b.json".to_owned()]
    );
}

#[test]
fn a_broken_document_is_told_of_once() {
    let (remembered, told) = document_notice(&None, Some("broken"));
    assert!(told.is_some());
    let (remembered, told) = document_notice(&remembered, Some("broken"));
    assert!(told.is_none());
    let (remembered, _) = document_notice(&remembered, None);
    assert_eq!(remembered, None);
}

#[test]
fn automatic_starting_is_set_up_step_by_step() {
    assert_eq!(default_cron_path(Platform::Linux, "/data"), "/data/cron.json");
    assert_eq!(systemd_quote("/a b"), "\"/a b\"");
    assert_eq!(xml_escape("a<b&\"c\""), "a&lt;b&amp;&quot;c&quot;");
    let unit = unit_contents("/bin/codecrab", "/data/cron.json");
    assert!(check_removal(Platform::Linux, &unit, "unit", "/etc/unit").is_ok());
    assert_eq!(
        check_removal(Platform::Linux, "[Unit]", "unit", "/etc/unit").unwrap_err(),
        "refusing to delete unrecognized unit /etc/unit"
    );
    let agent = agent_contents("com.codecrab.cron.1", "/bin/codecrab", "/data/cron.json");
    assert!(check_removal(Platform::MacOs, &agent, "com.codecrab.cron.1", "/x").is_ok());
    let runtime = runtime_directory_for(Platform::Linux, "/data", "/data/cron.json");
    assert_ne!(
        runtime,
        runtime_directory_for(Platform::Linux, "/data", "/other/cron.json")
    );
    let name = service_name(Platform::Linux, &installation_id(Platform::Linux, &runtime));
    assert!(name.starts_with("codecrab-cron-") && name.ends_with(".service"));
    assert!(!manual_autostart_instructions(Platform::Linux, "/bin/codecrab", "/c").is_empty());
    assert!(check_install(CronDaemonStatus::Running, "/bin/codecrab", true, false).is_err());
    assert!(check_install(CronDaemonStatus::Stopped, "/bin/codecrab", true, true).is_err());
    assert!(check_install(CronDaemonStatus::Stopped, "/bin/codecrab", true, false).is_ok());
    assert!(needs_rollback(CronInstallationStatus::Unhealthy));
    let view = installation_view(CronDaemonStatus::Stopped, None, false);
    assert_eq!(view.status, CronInstallationStatus::NotInstalled);
    let mut step = begin_install(Platform::Linux);
    let mut steps = 0;
    while !matches!(step, InstallStep::Installed) && steps < 20 {
        step = platform_install(Platform::Linux, step, true);
        steps += 1;
    }
    assert!(matches!(step, InstallStep::Installed));
}

#[test]
fn an_occurrence_is_carried_out_to_its_end() {
    let report = job("@daily");
    let mut run = Execution::begin("report".to_owned(), 4, 10);
    let saved = run.next(
        &report,
        JobEvent::Project { root: "/work".to_owned(), is_directory: true, id: 77, now: 20 },
    );
    match saved {
        Some(JobAction::Save(session)) => {
            assert_eq!(session.id, 77);
            assert_eq!(session.reasoning_effort.as_deref(), Some("high"));
            assert_eq!(session.scheduled_run.as_ref().unwrap().occurrence, 4);
        }
        other => panic!("{other:?}"),
    }
    assert!(matches!(run.next(&report, JobEvent::Done), Some(JobAction::FetchModels)));
    let mut model = ModelCatalogEntry::from_id("gpt-test".to_owned());
    model.supported_reasoning_levels = vec![ReasoningOption {
        effort: "high".to_owned(),
        name: String::new(),
        description: String::new(),
    }];
    match run.next(&report, JobEvent::Models(vec![model])) {
        Some(JobAction::Finish(done)) => {
            assert_eq!(done.status, CronOccurrenceStatus::Failed);
            assert_eq!(done.session_id, Some(77));
            assert_eq!(
                done.error.as_deref(),
                Some("scheduled service tier \"fast\" is unavailable for model \"gpt-test\"")
            );
        }
        other => panic!("{other:?}"),
    }
    assert!(run.next(&report, JobEvent::Done).is_none());
}

#[test]
fn turns_that_end_badly_end_their_occurrence() {
    let mut report = job("@daily");
    report.reasoning = None;
    report.speed = None;
    report.timeout_seconds = Some(5);
    let mut run = Execution::begin("report".to_owned(), 4, 10);
    run.next(
        &report,
        JobEvent::Project { root: "/work".to_owned(), is_directory: true, id: 77, now: 20 },
    );
    run.next(&report, JobEvent::Done);
    let models = vec![ModelCatalogEntry::from_id("gpt-test".to_owned())];
    assert!(matches!(
        run.next(&report, JobEvent::Models(models)),
        Some(JobAction::Choose(_))
    ));
    assert!(matches!(
        run.next(&report, JobEvent::Done),
        Some(JobAction::RunTurn { seconds: Some(5), .. })
    ));
    let mut unlimited = job("@daily");
    unlimited.timeout_seconds = None;
    assert!(run.next(&unlimited, JobEvent::Ended(JobTurnResult::TimedOut)).is_none());
    assert!(matches!(
        run.next(&report, JobEvent::Ended(JobTurnResult::TimedOut)),
        Some(JobAction::Close)
    ));
    match run.next(&report, JobEvent::Done) {
        Some(JobAction::Finish(done)) => {
            assert_eq!(done.status, CronOccurrenceStatus::TimedOut);
            assert_eq!(
                done.error.as_deref(),
                Some("the configured execution timeout elapsed")
            );
        }
        other => panic!("{other:?}"),
    }
    let mut run = Execution::begin("report".to_owned(), 4, 10);
    match run.next(
        &report,
        JobEvent::Project { root: "/gone".to_owned(), is_directory: false, id: 1, now: 2 },
    ) {
        Some(JobAction::Finish(done)) => {
            assert_eq!(done.session_id, None);
            assert_eq!(
                done.error.as_deref(),
                Some("project directory does not exist: /gone")
            );
        }
        other => panic!("{other:?}"),
    }
    assert!(matches!(
        JobTurnResult::from_join(Err("panicked".to_owned())),
        JobTurnResult::Failed(m) if m == "conversation task failed: panicked"
    ));
    assert!(matches!(
        JobTurnResult::from_join(Ok(Ok(Ok("done".to_owned())))),
        JobTurnResult::Completed(m) if m == "done"
    ));
}

#[test]
fn locks_tell_who_holds_them() {
    assert_eq!(Executor::Daemon.lock_file(), "daemon.lock");
    assert_eq!(Executor::Direct.lock_file(), "direct-run.lock");
    assert_eq!(
        Executor::Daemon.lock_text(42, "/c/cron.json"),
        "pid=42\nowner=cron daemon\nfile=/c/cron.json\n"
    );
    assert_eq!(
        Executor::Direct.taken("/c/cron.json"),
        "another CodeCrab direct scheduled execution already owns /c/cron.json"
    );
    let held = || Err("held".to_owned());
    assert!(matches!(way_to_run(Ok(()), Ok(()), false), RunWay::Here));
    assert!(matches!(way_to_run(Ok(()), held(), true), RunWay::ByTheDaemon));
    assert!(matches!(way_to_run(Ok(()), held(), false), RunWay::Refused(m) if m == "held"));
    assert!(matches!(way_to_run(held(), Ok(()), true), RunWay::Refused(m) if m.ends_with(": held")));
}

#[test]
fn files_of_jobs_are_found_before_they_are_there() {
    assert!(matches!(schedule_place(Platform::Linux, true, "a", false, "/w"), PlaceAction::ResolveFile));
    assert!(matches!(schedule_place(Platform::Linux, false, "a", true, "/w"), PlaceAction::ResolveParent));
    assert!(matches!(
        schedule_place(Platform::Linux, false, "a", false, "/w"),
        PlaceAction::MakeParent(d) if d == "/w/a"
    ));
    assert!(matches!(
        schedule_place(Platform::Linux, false, "/b", false, "/w"),
        PlaceAction::MakeParent(d) if d == "/b"
    ));
    assert_eq!(resolved_schedule_path(Platform::Linux, "/w/a", "a/cron.json").unwrap(), "/w/a/cron.json");
    assert_eq!(
        resolved_schedule_path(Platform::Linux, "/w", "..").unwrap_err(),
        "cron file path must include a file name"
    );
}

#[test]
fn services_are_registered_by_commands() {
    assert_eq!(
        artifact_path(Platform::Linux, "/home/me/.config", "x.service").as_deref(),
        Some("/home/me/.config/systemd/user/x.service")
    );
    assert_eq!(artifact_path(Platform::Windows, "/c", "x"), None);
    assert_eq!(
        install_command(Platform::Windows, InstallStep::Start, "Task", "", ""),
        vec!["schtasks", "/Run", "/TN", "Task"]
    );
    assert_eq!(
        command_failure(
            step_purpose(Platform::Linux, InstallStep::Reload),
            "out",
            " no bus \n"
        ),
        "cannot reload the systemd user manager: no bus"
    );
    assert_eq!(command_failure("x", "out ", " "), "cannot x: out");
    assert_eq!(
        taken_message(Platform::Windows, "Task", ""),
        "Windows scheduled task \"Task\" already exists"
    );
    assert_eq!(
        rollback_context(Platform::MacOs, InstallStep::Register).as_deref(),
        Some("the partial launchd installation was rolled back")
    );
    assert_eq!(rollback_context(Platform::MacOs, InstallStep::Contact), None);
}

#[test]
fn a_direct_run_is_recorded_from_begin_to_end() {
    let mut state = CronRuntimeState::new();
    let report = job("0 3 * * 2");
    let number = state.run_now("report", &report, 10).unwrap();
    assert_eq!(number, 1);
    let done = JobCompletion {
        job_id: "report".to_owned(),
        sequence: 1,
        status: CronOccurrenceStatus::Completed,
        session_id: Some(3),
        last_message: Some("done".to_owned()),
        error: None,
    };
    state.finish_direct_run(&done, Some(&report), 20);
    assert_eq!(state.run_now("report", &report, 30).unwrap(), 2);
    assert!(state.run_now("report", &job("nonsense"), 40).is_err());
}

#[test]
fn taking_the_service_back_is_done_in_steps() {
    let mut step = begin_uninstall(Platform::Linux);
    assert_eq!(step, UninstallStep::TakeDown);
    assert_eq!(
        uninstall_command(Platform::Linux, step, "x.service", ""),
        vec!["systemctl", "--user", "disable", "--now", "x.service"]
    );
    step = platform_uninstall(Platform::Linux, step, false);
    assert_eq!(step, UninstallStep::RemoveFile);
    assert_eq!(
        platform_uninstall(Platform::Linux, step, false),
        UninstallStep::Failed
    );
    step = platform_uninstall(Platform::Linux, step, true);
    assert_eq!(step, UninstallStep::Reload);
    assert_eq!(
        uninstall_purpose(Platform::Linux, step),
        "reload the systemd user manager after uninstall"
    );
    assert_eq!(
        platform_uninstall(Platform::Linux, step, true),
        UninstallStep::Removed
    );
    let query = begin_uninstall(Platform::Windows);
    assert_eq!(
        platform_uninstall(Platform::Windows, query, false),
        UninstallStep::Removed
    );
    assert_eq!(begin_uninstall(Platform::Other), UninstallStep::Removed);
    assert_eq!(
        removed_name(Platform::Linux, None, "abc"),
        "codecrab-cron-abc.service"
    );
    assert_eq!(removed_artifact(None, Some("/x".to_owned())).as_deref(), Some("/x"));
}

#[test]
fn services_are_there_with_their_files() {
    assert_eq!(
        registration_command(Platform::MacOs, "com.codecrab.cron.abc", "gui/501"),
        vec!["launchctl", "print", "gui/501/com.codecrab.cron.abc"]
    );
    assert!(platform_registration_exists(Platform::Windows, true, false));
    assert!(!platform_registration_exists(Platform::Linux, true, false));
    assert!(!platform_registration_exists(Platform::Other, true, true));
    let end = |registered: Result<(), String>, stored: Result<(), String>, status| {
        install_end(registered, stored, status, "Do it by hand.")
    };
    let running = CronInstallationStatus::Running;
    assert!(matches!(end(Ok(()), Ok(()), running), InstallEnd::Done));
    assert!(matches!(
        end(Err("no bus".to_owned()), Ok(()), running),
        InstallEnd::Failed(m) if m == "automatic cron installation failed. Do it by hand.: no bus"
    ));
    assert!(matches!(
        end(Ok(()), Err("full".to_owned()), running),
        InstallEnd::TakeBack(m) if m.ends_with("Do it by hand.: full")
    ));
    assert!(matches!(
        end(Ok(()), Ok(()), CronInstallationStatus::Unhealthy),
        InstallEnd::TakeBack(m) if m.starts_with("cron autostart did not pass")
    ));
}

#[test]
fn projects_of_windows_lie_on_drives() {
    let mut report = job("@daily");
    report.project = "C:\\work".to_owned();
    assert!(report.validate(Platform::Windows, "UTC").is_ok());
    assert!(report.validate(Platform::Linux, "UTC").is_err());
}

#[test]
fn a_failed_installation_is_taken_back() {
    let back = |platform: Platform, failing: InstallStep| {
        let mut step = begin_install(platform);
        let mut steps = Vec::new();
        for _ in 0..8 {
            step = platform_install(platform, step, step != failing);
            steps.push(step);
        }
        steps.dedup();
        let at = steps.iter().position(|step| *step == failing).unwrap();
        steps.split_off(at + 1)
    };
    assert_eq!(
        back(Platform::Linux, InstallStep::Register),
        vec![
            InstallStep::RollBack,
            InstallStep::RemoveFile,
            InstallStep::Settle,
            InstallStep::RolledBack,
        ]
    );
    assert_eq!(
        back(Platform::MacOs, InstallStep::Register),
        vec![InstallStep::RemoveFile, InstallStep::RolledBack]
    );
    assert_eq!(
        back(Platform::Windows, InstallStep::Start),
        vec![InstallStep::RollBack, InstallStep::RolledBack]
    );
    assert_eq!(
        install_command(Platform::Linux, InstallStep::Settle, "a", "", ""),
        vec!["systemctl", "--user", "daemon-reload"]
    );
}

#[test]
fn candidates_are_accepted_by_their_wall_clock() {
    assert!(accepts(false, true, 5, Some(4)));
    assert!(accepts(false, true, 5, None));
    assert!(!accepts(true, true, 5, None));
    assert!(!accepts(false, false, 5, None));
    assert!(!accepts(false, true, 5, Some(5)));
}

#[test]
fn the_last_years_of_the_calendar_are_left_to_the_cron_crate() {
    let report = job("0 3 * * *");
    let late = 8_210_250_000 * 1_000 * SECOND;
    match next_occurrences(&report, "UTC", late, 1) {
        Err(error) => assert!(!error.message().contains("calendar"), "{}", error.message()),
        Ok(times) => panic!("{times:?}"),
    }
}

#[test]
fn jobs_for_every_start_begin_with_the_daemon() {
    let mut document = CronDocument::empty("UTC".to_owned());
    document.upsert(Platform::Linux, "daily", job("@daily")).unwrap();
    document.upsert(Platform::Linux, "start", job("@reboot")).unwrap();
    let mut daemon = Daemon::new(CronRuntimeState::new());
    let mut starts = Vec::new();
    assert!(daemon.startup_pass(&mut starts, &document, 5 * SECOND, 6 * SECOND).is_none());
    assert_eq!(starts.len(), 1);
    assert_eq!((starts[0].id.as_str(), starts[0].scheduled_at), ("start", 5 * SECOND));
    assert!(in_calendar(5 * SECOND) && !in_calendar(i128::MAX));
}

#[test]
fn a_file_that_cannot_be_read_is_told_of() {
    let unreadable = load_document(
        Platform::Linux,
        "/c.json",
        DocumentRead::Unreadable("denied".to_owned()),
    );
    assert_eq!(unreadable.unwrap_err(), "cannot read /c.json: denied");
    let mut document = CronDocument::empty("Nowhere".to_owned());
    let unknown = load_document(Platform::Linux, "/c.json", DocumentRead::Read(document));
    assert!(unknown.unwrap_err().contains("Nowhere"));
    document = CronDocument::empty("UTC".to_owned());
    assert!(load_document(Platform::Linux, "/c.json", DocumentRead::Read(document)).is_ok());
}
