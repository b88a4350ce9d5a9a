//! Taking the automatic start of the daemon back, and seeing whether it is there.
use crate::autostart;
use crate::autostart::{CronInstallation, CronInstallationStatus};
use crate::message;
use crate::paths::Platform;
use crate::text;
use vstd::prelude::*;
use vstd::string::*;

verus! {

// ---------------------------------------------------------------------------
// Taking back

/// How far taking the automatic start back is.
#[derive(Clone, Copy, Debug, PartialEq, Eq, Structural)]
pub enum UninstallStep {
    /// Ask whether the service is registered.
    Query,
    /// Remove the service.
    Delete,
    /// Stop the service; whether that works does not matter.
    TakeDown,
    /// Remove the file, where it is there and this program wrote it.
    RemoveFile,
    /// Let the manager see that the file is gone.
    Reload,
    /// All is done.
    Removed,
    /// Something went wrong.
    Failed,
}

/// The first step.
pub open spec fn first_removal(platform: Platform) -> UninstallStep {
    match platform {
        Platform::Windows => UninstallStep::Query,
        Platform::Linux | Platform::MacOs => UninstallStep::TakeDown,
        Platform::Other => UninstallStep::Removed,
    }
}

/// The step after one that worked or did not.
pub open spec fn removal_after(platform: Platform, step: UninstallStep, worked: bool) -> UninstallStep {
    match step {
        UninstallStep::Query => if worked {
            UninstallStep::Delete
        } else {
            UninstallStep::Removed
        },
        UninstallStep::TakeDown => UninstallStep::RemoveFile,
        UninstallStep::RemoveFile => if !worked {
            UninstallStep::Failed
        } else if platform == Platform::Linux {
            UninstallStep::Reload
        } else {
            UninstallStep::Removed
        },
        UninstallStep::Delete | UninstallStep::Reload => if worked {
            UninstallStep::Removed
        } else {
            UninstallStep::Failed
        },
        UninstallStep::Removed | UninstallStep::Failed => step,
    }
}

/// The first step of taking the automatic start back.
pub fn begin_uninstall(platform: Platform) -> (r: UninstallStep)
    ensures
        r == first_removal(platform),
{
    match platform {
        Platform::Windows => UninstallStep::Query,
        Platform::Linux | Platform::MacOs => UninstallStep::TakeDown,
        Platform::Other => UninstallStep::Removed,
    }
}

/// The step after one that worked or did not.
pub fn platform_uninstall(platform: Platform, step: UninstallStep, worked: bool) -> (r: UninstallStep)
    ensures
        r == removal_after(platform, step, worked),
{
    match step {
        UninstallStep::Query => if worked {
            UninstallStep::Delete
        } else {
            UninstallStep::Removed
        },
        UninstallStep::TakeDown => UninstallStep::RemoveFile,
        UninstallStep::RemoveFile => if !worked {
            UninstallStep::Failed
        } else {
            match platform {
                Platform::Linux => UninstallStep::Reload,
                _ => UninstallStep::Removed,
            }
        },
        UninstallStep::Delete | UninstallStep::Reload => if worked {
            UninstallStep::Removed
        } else {
            UninstallStep::Failed
        },
        UninstallStep::Removed | UninstallStep::Failed => step,
    }
}

/// What is run in a step; `domain` is where launchd keeps the services of a person.
pub open spec fn removal_command(
    platform: Platform,
    step: UninstallStep,
    name: Seq<char>,
    domain: Seq<char>,
) -> Seq<Seq<char>> {
    match (platform, step) {
        (Platform::Windows, UninstallStep::Query) => seq!["schtasks"@, "/Query"@, "/TN"@, name],
        (Platform::Windows, UninstallStep::Delete) => seq![
            "schtasks"@,
            "/Delete"@,
            "/TN"@,
            name,
            "/F"@,
        ],
        (Platform::Linux, UninstallStep::TakeDown) => seq![
            "systemctl"@,
            "--user"@,
            "disable"@,
            "--now"@,
            name,
        ],
        (Platform::Linux, UninstallStep::Reload) => seq!["systemctl"@, "--user"@, "daemon-reload"@],
        (Platform::MacOs, UninstallStep::TakeDown) => seq![
            "launchctl"@,
            "bootout"@,
            domain + "/"@ + name,
        ],
        _ => Seq::empty(),
    }
}

/// What is run in a step: the program, then its arguments; nothing where the step runs no command.
pub fn uninstall_command(platform: Platform, step: UninstallStep, name: &str, domain: &str) -> (r:
    Vec<String>)
    ensures
        text::views(r@) == removal_command(platform, step, name@, domain@),
{
    let none = text::no_texts();
    match (platform, step) {
        (Platform::Windows, UninstallStep::Query) => text::with(
            text::with(text::with(text::with(none, "schtasks"), "/Query"), "/TN"),
            name,
        ),
        (Platform::Windows, UninstallStep::Delete) => text::with(
            text::with(
                text::with(text::with(text::with(none, "schtasks"), "/Delete"), "/TN"),
                name,
            ),
            "/F",
        ),
        (Platform::Linux, UninstallStep::TakeDown) => text::with(
            text::with(
                text::with(text::with(text::with(none, "systemctl"), "--user"), "disable"),
                "--now",
            ),
            name,
        ),
        (Platform::Linux, UninstallStep::Reload) => text::with(
            text::with(text::with(none, "systemctl"), "--user"),
            "daemon-reload",
        ),
        (Platform::MacOs, UninstallStep::TakeDown) => text::with(
            text::with(text::with(none, "launchctl"), "bootout"),
            &text::cat3(domain, "/", name),
        ),
        _ => none,
    }
}

/// What a step is for, in words that follow "cannot".
pub fn uninstall_purpose(platform: Platform, step: UninstallStep) -> (s: &'static str)
    ensures
        s@ == (match (platform, step) {
            (Platform::Windows, UninstallStep::Query) =>
                "query Windows Task Scheduler during uninstall"@,
            (Platform::Windows, UninstallStep::Delete) => "delete the Windows cron task"@,
            (Platform::Linux, UninstallStep::Reload) =>
                "reload the systemd user manager after uninstall"@,
            _ => ""@,
        }),
{
    match (platform, step) {
        (Platform::Windows, UninstallStep::Query) =>
            "query Windows Task Scheduler during uninstall",
        (Platform::Windows, UninstallStep::Delete) => "delete the Windows cron task",
        (Platform::Linux, UninstallStep::Reload) =>
            "reload the systemd user manager after uninstall",
        _ => "",
    }
}

/// The name of the service that is taken back: the one that was stored, or else the one that this
/// program gives.
pub fn removed_name(platform: Platform, installation: Option<&CronInstallation>, id: &str) -> (s:
    String)
    ensures
        s@ == (match installation {
            Some(i) => i.name@,
            None => autostart::service_name_of(platform, id@),
        }),
{
    match installation {
        Some(i) => i.name.clone(),
        None => autostart::service_name(platform, id),
    }
}

/// The file that is removed: the one that was stored, or else the one that this program writes.
pub fn removed_artifact(installation: Option<&CronInstallation>, default: Option<String>) -> (r:
    Option<String>)
    ensures
        message::opt_view(r) == (match installation {
            Some(i) if i.artifact is Some => message::opt_view(i.artifact),
            _ => message::opt_view(default),
        }),
{
    match installation {
        Some(i) => match &i.artifact {
            Some(path) => Some(path.clone()),
            None => default,
        },
        None => default,
    }
}

/// The step after some steps, given whether each of them worked.
pub open spec fn removal_at(platform: Platform, worked: Seq<bool>) -> UninstallStep
    decreases worked.len(),
{
    if worked.len() == 0 {
        first_removal(platform)
    } else {
        removal_after(platform, removal_at(platform, worked.drop_last()), worked.last())
    }
}

/// Taking the automatic start back ends after at most three steps. It does not fail where every step
/// works, nor where the service was not registered.
pub proof fn taking_back_ends(platform: Platform, worked: Seq<bool>)
    requires
        worked.len() == 3,
    ensures
        removal_at(platform, worked) == UninstallStep::Removed || removal_at(platform, worked)
            == UninstallStep::Failed,
        (forall|i: int| 0 <= i < 3 ==> #[trigger] worked[i]) ==> removal_at(platform, worked)
            == UninstallStep::Removed,
        platform == Platform::Windows && !worked[0] ==> removal_at(platform, worked)
            == UninstallStep::Removed,
{
    reveal_with_fuel(removal_at, 4);
    let a = worked.drop_last();
    let b = a.drop_last();
    assert(worked.last() == worked[2]);
    assert(a.last() == worked[1]);
    assert(b.last() == worked[0]);
}

// ---------------------------------------------------------------------------
// Whether it is there

/// What is run to see whether the service is registered.
pub open spec fn query_command(platform: Platform, name: Seq<char>, domain: Seq<char>) -> Seq<
    Seq<char>,
> {
    match platform {
        Platform::Windows => seq!["schtasks"@, "/Query"@, "/TN"@, name],
        Platform::Linux => seq!["systemctl"@, "--user"@, "is-enabled"@, name],
        Platform::MacOs => seq!["launchctl"@, "print"@, domain + "/"@ + name],
        Platform::Other => Seq::empty(),
    }
}

/// What is run to see whether the service is registered: the program, then its arguments.
pub fn registration_command(platform: Platform, name: &str, domain: &str) -> (r: Vec<String>)
    ensures
        text::views(r@) == query_command(platform, name@, domain@),
{
    let none = text::no_texts();
    match platform {
        Platform::Windows => text::with(
            text::with(text::with(text::with(none, "schtasks"), "/Query"), "/TN"),
            name,
        ),
        Platform::Linux => text::with(
            text::with(text::with(text::with(none, "systemctl"), "--user"), "is-enabled"),
            name,
        ),
        Platform::MacOs => text::with(
            text::with(text::with(none, "launchctl"), "print"),
            &text::cat3(domain, "/", name),
        ),
        Platform::Other => none,
    }
}

/// Whether the service is registered: the command says so, and the file that it needs is there.
pub fn platform_registration_exists(platform: Platform, succeeded: bool, file_exists: bool) -> (r:
    bool)
    ensures
        r == (match platform {
            Platform::Windows => succeeded,
            Platform::Linux | Platform::MacOs => succeeded && file_exists,
            Platform::Other => false,
        }),
{
    match platform {
        Platform::Windows => succeeded,
        Platform::Linux | Platform::MacOs => succeeded && file_exists,
        Platform::Other => false,
    }
}

// ---------------------------------------------------------------------------
// How setting up ends

/// How setting the automatic start up ends.
#[derive(Debug)]
pub enum InstallEnd {
    /// It is set up.
    Done,
    /// It was not set up.
    Failed(String),
    /// It was set up, and has to be taken back.
    TakeBack(String),
}

/// How setting the automatic start up ends, by what came of registering it, of storing that, and of
/// looking at it afterwards; `manual` is how a person can do it instead.
pub fn install_end(
    registered: Result<(), String>,
    stored: Result<(), String>,
    status: CronInstallationStatus,
    manual: &str,
) -> (r: InstallEnd)
    ensures
        match (registered, stored) {
            (Err(e), _) => r matches InstallEnd::Failed(m) && m@
                == "automatic cron installation failed. "@ + manual@ + ": "@ + e@,
            (Ok(()), Err(e)) => r matches InstallEnd::TakeBack(m) && m@
                == "autostart was rolled back because metadata could not be saved. "@ + manual@
                + ": "@ + e@,
            (Ok(()), Ok(())) => if status == CronInstallationStatus::Unhealthy || status
                == CronInstallationStatus::NotInstalled {
                r matches InstallEnd::TakeBack(m) && m@
                    == "cron autostart did not pass post-install verification and was rolled back. "@
                    + manual@
            } else {
                r is Done
            },
        },
{
    if let Err(e) = registered {
        return InstallEnd::Failed(
            text::cat4("automatic cron installation failed. ", manual, ": ", &e),
        );
    }
    if let Err(e) = stored {
        return InstallEnd::TakeBack(
            text::cat4(
                "autostart was rolled back because metadata could not be saved. ",
                manual,
                ": ",
                &e,
            ),
        );
    }
    if autostart::needs_rollback(status) {
        return InstallEnd::TakeBack(
            text::cat2(
                "cron autostart did not pass post-install verification and was rolled back. ",
                manual,
            ),
        );
    }
    InstallEnd::Done
}

// ---------------------------------------------------------------------------
// Laws
/// On Windows a service is removed exactly where it is registered; elsewhere its file is removed once
/// it is taken down, whether or not that worked.
pub proof fn a_service_is_removed_where_it_is_there(worked: bool)
    ensures
        first_removal(Platform::Windows) == UninstallStep::Query,
        removal_after(Platform::Windows, UninstallStep::Query, true) == UninstallStep::Delete,
        removal_after(Platform::Windows, UninstallStep::Query, false) == UninstallStep::Removed,
        removal_after(Platform::Windows, UninstallStep::Delete, worked) == (if worked {
            UninstallStep::Removed
        } else {
            UninstallStep::Failed
        }),
        forall|p: Platform|
            p == Platform::Linux || p == Platform::MacOs ==> #[trigger] first_removal(p)
                == UninstallStep::TakeDown,
        forall|p: Platform| #[trigger]
            removal_after(p, UninstallStep::TakeDown, worked) == UninstallStep::RemoveFile,
        forall|p: Platform| #[trigger]
            removal_after(p, UninstallStep::RemoveFile, false) == UninstallStep::Failed,
        removal_after(Platform::Linux, UninstallStep::RemoveFile, true) == UninstallStep::Reload,
        removal_after(Platform::MacOs, UninstallStep::RemoveFile, true) == UninstallStep::Removed,
        first_removal(Platform::Other) == UninstallStep::Removed,
{
}

/// What is run to take a service back or to look for it names that service.
pub proof fn commands_name_the_service(name: Seq<char>, domain: Seq<char>)
    ensures
        removal_command(Platform::Windows, UninstallStep::Query, name, domain).contains(name),
        removal_command(Platform::Windows, UninstallStep::Delete, name, domain).contains(name),
        removal_command(Platform::Windows, UninstallStep::Delete, name, domain).contains(
            "/Delete"@,
        ),
        removal_command(Platform::Linux, UninstallStep::TakeDown, name, domain).contains(name),
        removal_command(Platform::Linux, UninstallStep::TakeDown, name, domain).contains(
            "disable"@,
        ),
        removal_command(Platform::MacOs, UninstallStep::TakeDown, name, domain).contains(
            domain + "/"@ + name,
        ),
        query_command(Platform::Windows, name, domain).contains(name),
        query_command(Platform::Linux, name, domain).contains(name),
        query_command(Platform::MacOs, name, domain).contains(domain + "/"@ + name),
        query_command(Platform::Other, name, domain).len() == 0,
{
    assert(removal_command(Platform::Windows, UninstallStep::Query, name, domain)[3] == name);
    assert(removal_command(Platform::Windows, UninstallStep::Delete, name, domain)[3] == name);
    assert(removal_command(Platform::Windows, UninstallStep::Delete, name, domain)[1]
        == "/Delete"@);
    assert(removal_command(Platform::Linux, UninstallStep::TakeDown, name, domain)[4] == name);
    assert(removal_command(Platform::Linux, UninstallStep::TakeDown, name, domain)[2]
        == "disable"@);
    assert(removal_command(Platform::MacOs, UninstallStep::TakeDown, name, domain)[2] == domain
        + "/"@ + name);
    assert(query_command(Platform::Windows, name, domain)[3] == name);
    assert(query_command(Platform::Linux, name, domain)[3] == name);
    assert(query_command(Platform::MacOs, name, domain)[2] == domain + "/"@ + name);
}

/// The automatic start is set up where it could be registered and stored and is there afterwards; what
/// could be registered only is taken back.
pub proof fn what_was_set_up_in_part_is_taken_back(
    registered: Result<(), String>,
    stored: Result<(), String>,
    status: CronInstallationStatus,
    manual: &str,
    r: InstallEnd,
)
    requires
        call_ensures(install_end, (registered, stored, status, manual), r),
    ensures
        r is Failed <==> registered is Err,
        r is Done <==> registered is Ok && stored is Ok && status
            != CronInstallationStatus::Unhealthy && status != CronInstallationStatus::NotInstalled,
        r is TakeBack <==> registered is Ok && !(r is Done),
{
}

/// A service is registered where the system says so, and, but on Windows, its file is there.
pub proof fn a_service_is_registered_where_it_is_known(
    platform: Platform,
    succeeded: bool,
    file: bool,
    r: bool,
)
    requires
        call_ensures(platform_registration_exists, (platform, succeeded, file), r),
    ensures
        r ==> succeeded,
        r && platform != Platform::Windows ==> file,
        succeeded && file && platform != Platform::Other ==> r,
        succeeded && platform == Platform::Windows ==> r,
{
}

} // verus!
