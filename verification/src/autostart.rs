//! Starting the daemon of scheduled jobs when a person logs in.
use crate::hash;
use crate::message;
use crate::paths;
use crate::paths::Platform;
use crate::text;
use vstd::prelude::*;
use vstd::string::*;

verus! {

/// The file that holds the schedule, where no other is named.
pub const DEFAULT_CRON_FILE_NAME: &'static str = "cron.json";

/// Whether the daemon runs.
#[derive(Clone, Copy, Debug, PartialEq, Eq, Structural)]
pub enum CronDaemonStatus {
    Running,
    Stopped,
}

/// How the automatic start stands.
#[derive(Clone, Copy, Debug, PartialEq, Eq, Structural)]
pub enum CronInstallationStatus {
    NotInstalled,
    InstalledStopped,
    Running,
    RunningUnmanaged,
    Unhealthy,
}

/// How the automatic start stands, as told.
#[derive(Debug)]
pub struct CronInstallationView {
    pub status: CronInstallationStatus,
    pub method: Option<String>,
    pub artifact: Option<String>,
    pub detail: Option<String>,
}

/// What is stored of an automatic start.
#[derive(Debug)]
pub struct CronInstallation {
    pub version: u32,
    pub method: String,
    pub name: String,
    pub artifact: Option<String>,
    pub executable: String,
    pub schedule_path: String,
    pub installed_at: i128,
}

/// Whether the daemon runs: its lock is held, and not by an execution beside it.
pub fn daemon_status(daemon_lock_active: bool, direct_run_active: bool) -> (r: CronDaemonStatus)
    ensures
        r == CronDaemonStatus::Running <==> daemon_lock_active && !direct_run_active,
{
    if !daemon_lock_active || direct_run_active {
        CronDaemonStatus::Stopped
    } else {
        CronDaemonStatus::Running
    }
}

/// Who may execute jobs.
#[derive(Clone, Copy, Debug, PartialEq, Eq, Structural)]
pub enum Executor {
    /// The daemon.
    Daemon,
    /// An execution beside it.
    Direct,
}

impl Executor {
    /// What it is called.
    pub open spec fn name(self) -> Seq<char> {
        match self {
            Executor::Daemon => "cron daemon"@,
            Executor::Direct => "direct scheduled execution"@,
        }
    }

    /// What it is called.
    pub fn owner(&self) -> (s: &'static str)
        ensures
            s@ == self.name(),
    {
        match self {
            Executor::Daemon => "cron daemon",
            Executor::Direct => "direct scheduled execution",
        }
    }

    /// The file that it locks.
    pub fn lock_file(&self) -> (s: &'static str)
        ensures
            s@ == (match *self {
                Executor::Daemon => "daemon.lock"@,
                Executor::Direct => "direct-run.lock"@,
            }),
    {
        match self {
            Executor::Daemon => "daemon.lock",
            Executor::Direct => "direct-run.lock",
        }
    }

    /// What the locked file says.
    pub fn lock_text(&self, process: u64, schedule_path: &str) -> (s: String)
        ensures
            s@ == "pid="@ + text::decimal(process as nat) + "\nowner="@ + self.name() + "\nfile="@
                + schedule_path@ + "\n"@,
    {
        let head = text::cat4("pid=", &text::to_decimal(process), "\nowner=", self.owner());
        text::cat4(&head, "\nfile=", schedule_path, "\n")
    }

    /// What a person is told where another one holds the lock.
    pub fn taken(&self, schedule_path: &str) -> (s: String)
        ensures
            s@ == self.taken_text(schedule_path@),
    {
        text::cat4("another CodeCrab ", self.owner(), " already owns ", schedule_path)
    }

    pub open spec fn taken_text(self, schedule_path: Seq<char>) -> Seq<char> {
        "another CodeCrab "@ + self.name() + " already owns "@ + schedule_path
    }
}

/// How a job is executed at once.
#[derive(Debug)]
pub enum RunWay {
    /// Here and now.
    Here,
    /// By the daemon, which is asked for it.
    ByTheDaemon,
    /// Not at all.
    Refused(String),
}

/// How a job is executed at once, by whether the two locks could be had: beside the daemon, but by
/// the daemon where it runs, and only one at a time.
pub fn way_to_run(
    direct_lock: Result<(), String>,
    daemon_lock: Result<(), String>,
    daemon_lock_active: bool,
) -> (r: RunWay)
    ensures
        match (direct_lock, daemon_lock) {
            (Err(e), _) => r matches RunWay::Refused(m) && m@
                == "another direct scheduled execution is still running; try again after it finishes: "@
                + e@,
            (Ok(()), Ok(())) => r is Here,
            (Ok(()), Err(e)) => if daemon_lock_active {
                r is ByTheDaemon
            } else {
                r == RunWay::Refused(e)
            },
        },
{
    if let Err(e) = direct_lock {
        return RunWay::Refused(
            text::cat2(
                "another direct scheduled execution is still running; try again after it finishes: ",
                &e,
            ),
        );
    }
    match daemon_lock {
        Ok(()) => RunWay::Here,
        Err(e) => if daemon_lock_active {
            RunWay::ByTheDaemon
        } else {
            RunWay::Refused(e)
        },
    }
}

/// How the automatic start stands.
pub open spec fn status_of(daemon: CronDaemonStatus, installed: bool, registered: bool) -> CronInstallationStatus {
    let runs = daemon == CronDaemonStatus::Running;
    if !installed {
        if runs {
            CronInstallationStatus::RunningUnmanaged
        } else {
            CronInstallationStatus::NotInstalled
        }
    } else if !registered {
        CronInstallationStatus::Unhealthy
    } else if runs {
        CronInstallationStatus::Running
    } else {
        CronInstallationStatus::InstalledStopped
    }
}

/// How the automatic start stands; `registered` tells whether the operating system knows of what
/// is stored.
pub fn installation_view(
    daemon: CronDaemonStatus,
    installation: Option<CronInstallation>,
    registered: bool,
) -> (r: CronInstallationView)
    ensures
        r.status == status_of(daemon, installation is Some, registered),
        r.method == (match installation {
            Some(i) => Some(i.method),
            None => None,
        }),
        r.artifact == (match installation {
            Some(i) => i.artifact,
            None => None,
        }),
        message::opt_view(r.detail) == (if installation is Some && !registered {
            Some("the recorded operating-system registration is missing"@)
        } else {
            None
        }),
{
    match installation {
        None => CronInstallationView {
            status: match daemon {
                CronDaemonStatus::Running => CronInstallationStatus::RunningUnmanaged,
                CronDaemonStatus::Stopped => CronInstallationStatus::NotInstalled,
            },
            method: None,
            artifact: None,
            detail: None,
        },
        Some(i) => {
            let status = if !registered {
                CronInstallationStatus::Unhealthy
            } else {
                match daemon {
                    CronDaemonStatus::Running => CronInstallationStatus::Running,
                    CronDaemonStatus::Stopped => CronInstallationStatus::InstalledStopped,
                }
            };
            let detail = if registered {
                None
            } else {
                Some("the recorded operating-system registration is missing".to_owned())
            };
            CronInstallationView {
                status,
                method: Some(i.method),
                artifact: i.artifact,
                detail,
            }
        },
    }
}

/// Whether an installation has to be taken back after it was made.
pub fn needs_rollback(status: CronInstallationStatus) -> (r: bool)
    ensures
        r == (status == CronInstallationStatus::Unhealthy || status
            == CronInstallationStatus::NotInstalled),
{
    match status {
        CronInstallationStatus::Unhealthy | CronInstallationStatus::NotInstalled => true,
        _ => false,
    }
}

/// Why the automatic start cannot be set up.
#[derive(Debug)]
pub enum InstallError {
    DaemonRunning,
    MissingExecutable(String),
    AlreadyInstalled,
}

/// What a person is told.
pub open spec fn install_text(e: InstallError) -> Seq<char> {
    match e {
        InstallError::DaemonRunning =>
            "stop the currently running cron daemon before installing managed autostart"@,
        InstallError::MissingExecutable(path) => "CodeCrab executable does not exist: "@ + path@,
        InstallError::AlreadyInstalled =>
            "cron autostart metadata already exists; uninstall it first"@,
    }
}

impl InstallError {
    /// What a person is told.
    pub fn message(&self) -> (s: String)
        ensures
            s@ == install_text(*self),
    {
        match self {
            InstallError::DaemonRunning =>
                "stop the currently running cron daemon before installing managed autostart".to_owned(),
            InstallError::MissingExecutable(path) => text::cat2(
                "CodeCrab executable does not exist: ",
                path,
            ),
            InstallError::AlreadyInstalled =>
                "cron autostart metadata already exists; uninstall it first".to_owned(),
        }
    }
}

/// Whether the automatic start can be set up.
pub fn check_install(
    daemon: CronDaemonStatus,
    executable: &str,
    executable_exists: bool,
    metadata_exists: bool,
) -> (r: Result<(), InstallError>)
    ensures
        match r {
            Ok(()) => daemon == CronDaemonStatus::Stopped && executable_exists && !metadata_exists,
            Err(InstallError::DaemonRunning) => daemon == CronDaemonStatus::Running,
            Err(InstallError::MissingExecutable(path)) => daemon == CronDaemonStatus::Stopped
                && !executable_exists && path@ == executable@,
            Err(InstallError::AlreadyInstalled) => daemon == CronDaemonStatus::Stopped
                && executable_exists && metadata_exists,
        },
{
    match daemon {
        CronDaemonStatus::Running => {
            return Err(InstallError::DaemonRunning);
        },
        CronDaemonStatus::Stopped => {},
    }
    if !executable_exists {
        return Err(InstallError::MissingExecutable(executable.to_owned()));
    }
    if metadata_exists {
        return Err(InstallError::AlreadyInstalled);
    }
    Ok(())
}

// ---------------------------------------------------------------------------
// Names and places

/// The file that holds the schedule, where no other is named.
pub fn default_cron_path(platform: Platform, data_dir: &str) -> (r: String)
    ensures
        r@ == paths::joined(platform, data_dir@, DEFAULT_CRON_FILE_NAME@),
{
    paths::join(platform, data_dir, DEFAULT_CRON_FILE_NAME)
}

/// What stands for the place of a schedule; Windows does not tell the cases of letters apart.
pub open spec fn identity_of(platform: Platform, schedule_path: Seq<char>) -> Seq<char> {
    if platform == Platform::Windows {
        text::ascii_lower(schedule_path)
    } else {
        schedule_path
    }
}

/// The directory that holds what belongs to a schedule: it is named by the first digits of a digest
/// of where the schedule is.
pub fn runtime_directory_for(platform: Platform, data_dir: &str, schedule_path: &str) -> (r: String)
    ensures
        r@ == paths::joined(
            platform,
            paths::joined(platform, data_dir@, "cron"@),
            hash::sha256_hex(
                vstd::utf8::encode_utf8(identity_of(platform, schedule_path@)),
            ).take(24),
        ),
{
    let identity = match platform {
        Platform::Windows => text::to_ascii_lowercase(schedule_path),
        _ => schedule_path.to_owned(),
    };
    let digest = hash::digest_hex(identity.as_str().as_bytes());
    let name = digest.as_str().substring_char(0, 24);
    paths::join(platform, &paths::join(platform, data_dir, "cron"), name)
}

/// The name by which the operating system knows a runtime directory.
pub open spec fn id_of(platform: Platform, runtime_dir: Seq<char>) -> Seq<char> {
    match paths::name_of(platform, runtime_dir) {
        Some(name) => name,
        None => "default"@,
    }
}

/// The name by which the operating system knows a runtime directory.
pub fn installation_id(platform: Platform, runtime_dir: &str) -> (s: String)
    ensures
        s@ == id_of(platform, runtime_dir@),
{
    match paths::file_name(platform, runtime_dir) {
        Some(name) => name,
        None => "default".to_owned(),
    }
}

/// What the operating system calls the automatic start of a schedule.
pub open spec fn service_name_of(platform: Platform, id: Seq<char>) -> Seq<char> {
    match platform {
        Platform::Windows => "CodeCrab Cron "@ + id,
        Platform::MacOs => "com.codecrab.cron."@ + id,
        _ => "codecrab-cron-"@ + id + ".service"@,
    }
}

/// What the operating system calls the automatic start of a schedule.
pub fn service_name(platform: Platform, id: &str) -> (s: String)
    ensures
        s@ == service_name_of(platform, id@),
{
    match platform {
        Platform::Windows => text::cat2("CodeCrab Cron ", id),
        Platform::MacOs => text::cat2("com.codecrab.cron.", id),
        _ => text::cat3("codecrab-cron-", id, ".service"),
    }
}

/// Where the automatic start is written down: `base` is the directory of settings, or the home
/// directory on macOS. Windows has no file for it.
pub fn artifact_path(platform: Platform, base: &str, name: &str) -> (r: Option<String>)
    ensures
        message::opt_view(r) == (match platform {
            Platform::Linux => Some(
                paths::joined(platform, paths::joined(platform, paths::joined(platform, base@, "systemd"@), "user"@), name@),
            ),
            Platform::MacOs => Some(
                paths::joined(
                    platform,
                    paths::joined(platform, paths::joined(platform, base@, "Library"@), "LaunchAgents"@),
                    name@ + ".plist"@,
                ),
            ),
            _ => None,
        }),
{
    match platform {
        Platform::Linux => Some(
            paths::join(platform, &paths::join(platform, &paths::join(platform, base, "systemd"), "user"), name),
        ),
        Platform::MacOs => Some(
            paths::join(
                platform,
                &paths::join(platform, &paths::join(platform, base, "Library"), "LaunchAgents"),
                &text::cat2(name, ".plist"),
            ),
        ),
        _ => None,
    }
}

/// What a person is told to set up, where it cannot be done for them.
pub fn manual_autostart_instructions(platform: Platform, executable: &str, schedule: &str) -> (s: String)
    ensures
        s@ == "You can configure "@ + (match platform {
            Platform::Windows => "Windows Task Scheduler"@,
            Platform::Linux => "a systemd user service"@,
            Platform::MacOs => "a per-user LaunchAgent"@,
            Platform::Other => "your operating system's per-user service manager"@,
        }) + " to start and supervise this command at login: "@ + task_command_of(
            executable@,
            schedule@,
        ),
{
    let manager = match platform {
        Platform::Windows => "Windows Task Scheduler",
        Platform::Linux => "a systemd user service",
        Platform::MacOs => "a per-user LaunchAgent",
        Platform::Other => "your operating system's per-user service manager",
    };
    text::cat4(
        "You can configure ",
        manager,
        " to start and supervise this command at login: ",
        &task_command(executable, schedule),
    )
}

/// The command that starts the daemon.
pub open spec fn task_command_of(executable: Seq<char>, schedule: Seq<char>) -> Seq<char> {
    "\""@ + executable + "\" cron \""@ + schedule + "\""@
}

/// The command that starts the daemon.
pub fn task_command(executable: &str, schedule: &str) -> (s: String)
    ensures
        s@ == task_command_of(executable@, schedule@),
{
    text::cat5("\"", executable, "\" cron \"", schedule, "\"")
}

// ---------------------------------------------------------------------------
// What is written down

/// How a character is written in a unit of systemd.
pub open spec fn unit_char(c: char) -> Seq<char> {
    if c == '\\' {
        seq!['\\', '\\']
    } else if c == '"' {
        seq!['\\', '"']
    } else if c == '%' {
        seq!['%', '%']
    } else if c == '\n' {
        seq!['\\', 'n']
    } else if c == '\r' {
        seq!['\\', 'r']
    } else if c == '\t' {
        seq!['\\', 't']
    } else {
        seq![c]
    }
}

/// A path as it is written in a unit of systemd.
pub open spec fn unit_quoted(path: Seq<char>) -> Seq<char> {
    "\""@ + text::spread(path, |c: char| unit_char(c)) + "\""@
}

fn push_unit_char(out: &mut String, c: char)
    ensures
        final(out)@ == old(out)@ + unit_char(c),
{
    let ghost before = out@;
    if c == '\\' {
        out.push('\\');
        out.push('\\');
    } else if c == '"' {
        out.push('\\');
        out.push('"');
    } else if c == '%' {
        out.push('%');
        out.push('%');
    } else if c == '\n' {
        out.push('\\');
        out.push('n');
    } else if c == '\r' {
        out.push('\\');
        out.push('r');
    } else if c == '\t' {
        out.push('\\');
        out.push('t');
    } else {
        out.push(c);
    }
    assert(out@ == before + unit_char(c));
}

/// A path as it is written in a unit of systemd.
pub fn systemd_quote(path: &str) -> (s: String)
    ensures
        s@ == unit_quoted(path@),
{
    let v = text::chars_of(path);
    let ghost f = |c: char| unit_char(c);
    let mut out = String::new();
    let mut i: usize = 0;
    assert(v@.take(0) == Seq::<char>::empty());
    while i < v.len()
        invariant
            i <= v@.len(),
            v@ == path@,
            f == |c: char| unit_char(c),
            out@ == text::spread(v@.take(i as int), f),
        decreases v@.len() - i,
    {
        push_unit_char(&mut out, v[i]);
        assert(v@.take(i + 1).drop_last() == v@.take(i as int));
        assert(v@.take(i + 1).last() == v@[i as int]);
        i += 1;
    }
    assert(v@.take(v@.len() as int) == v@);
    text::cat3("\"", &out, "\"")
}

/// The unit of systemd that starts the daemon.
pub open spec fn unit_of(executable: Seq<char>, schedule: Seq<char>) -> Seq<char> {
    "# Managed by CodeCrab for "@ + schedule
        + "\n[Unit]\nDescription=CodeCrab scheduled agent tasks\n\n[Service]\nType=simple\nExecStart="@
        + unit_quoted(executable) + " cron "@ + unit_quoted(schedule)
        + "\nRestart=on-failure\nRestartSec=5\n\n[Install]\nWantedBy=default.target\n"@
}

/// The unit of systemd that starts the daemon.
pub fn unit_contents(executable: &str, schedule: &str) -> (s: String)
    ensures
        s@ == unit_of(executable@, schedule@),
{
    let head = text::cat4(
        "# Managed by CodeCrab for ",
        schedule,
        "\n[Unit]\nDescription=CodeCrab scheduled agent tasks\n\n[Service]\nType=simple\nExecStart=",
        &systemd_quote(executable),
    );
    text::cat4(
        &head,
        " cron ",
        &systemd_quote(schedule),
        "\nRestart=on-failure\nRestartSec=5\n\n[Install]\nWantedBy=default.target\n",
    )
}

/// How a character is written in XML.
pub open spec fn xml_char(c: char) -> Seq<char> {
    if c == '&' {
        "&amp;"@
    } else if c == '<' {
        "&lt;"@
    } else if c == '>' {
        "&gt;"@
    } else if c == '"' {
        "&quot;"@
    } else if c == '\'' {
        "&apos;"@
    } else {
        seq![c]
    }
}

/// A text as it is written in XML.
pub open spec fn xml_of(value: Seq<char>) -> Seq<char> {
    text::spread(value, |c: char| xml_char(c))
}

fn push_xml_char(out: &mut String, c: char)
    ensures
        final(out)@ == old(out)@ + xml_char(c),
{
    let ghost before = out@;
    if c == '&' {
        out.append("&amp;");
    } else if c == '<' {
        out.append("&lt;");
    } else if c == '>' {
        out.append("&gt;");
    } else if c == '"' {
        out.append("&quot;");
    } else if c == '\'' {
        out.append("&apos;");
    } else {
        out.push(c);
        assert(out@ == before + seq![c]);
    }
}

/// A text as it is written in XML.
pub fn xml_escape(value: &str) -> (s: String)
    ensures
        s@ == xml_of(value@),
{
    let v = text::chars_of(value);
    let ghost f = |c: char| xml_char(c);
    let mut out = String::new();
    let mut i: usize = 0;
    assert(v@.take(0) == Seq::<char>::empty());
    while i < v.len()
        invariant
            i <= v@.len(),
            v@ == value@,
            f == |c: char| xml_char(c),
            out@ == text::spread(v@.take(i as int), f),
        decreases v@.len() - i,
    {
        push_xml_char(&mut out, v[i]);
        assert(v@.take(i + 1).drop_last() == v@.take(i as int));
        assert(v@.take(i + 1).last() == v@[i as int]);
        i += 1;
    }
    assert(v@.take(v@.len() as int) == v@);
    out
}

/// The agent of launchd that starts the daemon.
pub open spec fn agent_of(label: Seq<char>, executable: Seq<char>, schedule: Seq<char>) -> Seq<char> {
    "<?xml version=\"1.0\" encoding=\"UTF-8\"?>\n<!DOCTYPE plist PUBLIC \"-//Apple//DTD PLIST 1.0//EN\" \"http://www.apple.com/DTDs/PropertyList-1.0.dtd\">\n<plist version=\"1.0\"><dict><key>Label</key><string>"@
        + xml_of(label) + "</string><key>ProgramArguments</key><array><string>"@ + xml_of(
        executable,
    ) + "</string><string>cron</string><string>"@ + xml_of(schedule)
        + "</string></array><key>RunAtLoad</key><true/><key>KeepAlive</key><true/></dict></plist>\n"@
}

/// The agent of launchd that starts the daemon.
pub fn agent_contents(label: &str, executable: &str, schedule: &str) -> (s: String)
    ensures
        s@ == agent_of(label@, executable@, schedule@),
{
    let head = text::cat4(
        "<?xml version=\"1.0\" encoding=\"UTF-8\"?>\n<!DOCTYPE plist PUBLIC \"-//Apple//DTD PLIST 1.0//EN\" \"http://www.apple.com/DTDs/PropertyList-1.0.dtd\">\n<plist version=\"1.0\"><dict><key>Label</key><string>",
        &xml_escape(label),
        "</string><key>ProgramArguments</key><array><string>",
        &xml_escape(executable),
    );
    text::cat4(
        &head,
        "</string><string>cron</string><string>",
        &xml_escape(schedule),
        "</string></array><key>RunAtLoad</key><true/><key>KeepAlive</key><true/></dict></plist>\n",
    )
}

/// Whether a file was written by this program and may be deleted by it: a unit says so, and an
/// agent holds its label.
pub fn is_own_artifact(platform: Platform, contents: &str, name: &str) -> (r: bool)
    ensures
        r == (match platform {
            Platform::MacOs => text::contains_text(contents@, name@),
            _ => text::contains_text(contents@, "Managed by CodeCrab"@),
        }),
{
    match platform {
        Platform::MacOs => text::contains(contents, name),
        _ => text::contains(contents, "Managed by CodeCrab"),
    }
}

/// Whether a file may be deleted when automatic starting is undone, and what a person is told where
/// it was not written by this program.
pub fn check_removal(platform: Platform, contents: &str, name: &str, artifact: &str) -> (r: Result<
    (),
    String,
>)
    ensures
        ({
            let own = match platform {
                Platform::MacOs => text::contains_text(contents@, name@),
                _ => text::contains_text(contents@, "Managed by CodeCrab"@),
            };
            &&& own ==> r is Ok
            &&& !own ==> (r matches Err(e) && e@ == (match platform {
                Platform::MacOs => "refusing to delete unrecognized launchd file "@,
                _ => "refusing to delete unrecognized unit "@,
            }) + artifact@)
        }),
{
    if is_own_artifact(platform, contents, name) {
        return Ok(());
    }
    Err(
        match platform {
            Platform::MacOs => text::cat2(
                "refusing to delete unrecognized launchd file ",
                artifact,
            ),
            _ => text::cat2("refusing to delete unrecognized unit ", artifact),
        },
    )
}

/// What a person is told of a command that failed: what it wrote to its error output, or else to
/// its output.
pub fn command_failure(action: &str, stdout: &str, stderr: &str) -> (s: String)
    ensures
        s@ == "cannot "@ + action@ + ": "@ + (if text::trimmed(stderr@).len() == 0 {
            text::trimmed(stdout@)
        } else {
            text::trimmed(stderr@)
        }),
{
    let errors = text::trim(stderr);
    let told = if errors.is_empty() {
        text::trim(stdout)
    } else {
        errors
    };
    text::cat4("cannot ", action, ": ", told)
}

// ---------------------------------------------------------------------------
// Registering with the operating system

/// A step of setting up the automatic start.
#[derive(Clone, Copy, Debug, PartialEq, Eq, Structural)]
pub enum InstallStep {
    /// Reach what manages the services of a person.
    Contact,
    /// See that the name or the file is free.
    Probe,
    /// Write the file down.
    Write,
    /// Let the manager read the file.
    Reload,
    /// Register the service.
    Register,
    /// Set up what registering cannot.
    Configure,
    /// Start the service.
    Start,
    /// All is done.
    Installed,
    /// Something went wrong before anything was changed.
    Failed,
    /// Something went wrong: take the registration back.
    RollBack,
    /// Something went wrong: delete the file.
    RemoveFile,
    /// Something went wrong: let the manager see that the file is gone.
    Settle,
    /// Something went wrong, and what was changed is taken back.
    RolledBack,
    /// There is no automatic start here.
    Unsupported,
}

/// The first step of setting up the automatic start.
pub open spec fn first_step(platform: Platform) -> InstallStep {
    if platform == Platform::Other {
        InstallStep::Unsupported
    } else {
        InstallStep::Contact
    }
}

/// The step that follows a step that worked.
pub open spec fn step_after(platform: Platform, step: InstallStep) -> InstallStep {
    match (platform, step) {
        (_, InstallStep::Contact) => InstallStep::Probe,
        (Platform::Windows, InstallStep::Probe) => InstallStep::Register,
        (_, InstallStep::Probe) => InstallStep::Write,
        (Platform::Linux, InstallStep::Write) => InstallStep::Reload,
        (_, InstallStep::Write) => InstallStep::Register,
        (_, InstallStep::Reload) => InstallStep::Register,
        (Platform::Windows, InstallStep::Register) => InstallStep::Configure,
        (_, InstallStep::Register) => InstallStep::Installed,
        (_, InstallStep::Configure) => InstallStep::Start,
        (_, InstallStep::Start) => InstallStep::Installed,
        (_, other) => other,
    }
}

/// Whether a step changes something.
pub open spec fn changes(step: InstallStep) -> bool {
    match step {
        InstallStep::Reload | InstallStep::Register | InstallStep::Configure
        | InstallStep::Start => true,
        _ => false,
    }
}

/// The first step of taking back what was changed.
pub open spec fn first_step_back(platform: Platform) -> InstallStep {
    match platform {
        Platform::MacOs => InstallStep::RemoveFile,
        _ => InstallStep::RollBack,
    }
}

/// The step that follows one of taking back what was changed, whether it worked or not.
pub open spec fn next_step_back(platform: Platform, step: InstallStep) -> InstallStep {
    match (platform, step) {
        (Platform::Linux, InstallStep::RollBack) => InstallStep::RemoveFile,
        (Platform::Linux, InstallStep::RemoveFile) => InstallStep::Settle,
        _ => InstallStep::RolledBack,
    }
}

/// Whether a step takes back what was changed.
pub open spec fn takes_back(step: InstallStep) -> bool {
    match step {
        InstallStep::RollBack | InstallStep::RemoveFile | InstallStep::Settle => true,
        _ => false,
    }
}

/// The step that follows, given whether the last one worked. What was changed is taken back where
/// it did not.
pub open spec fn next_step(platform: Platform, step: InstallStep, worked: bool) -> InstallStep {
    if is_last(step) {
        step
    } else if takes_back(step) {
        next_step_back(platform, step)
    } else if worked {
        step_after(platform, step)
    } else if changes(step) {
        first_step_back(platform)
    } else {
        InstallStep::Failed
    }
}

/// Whether nothing follows a step.
pub open spec fn is_last(step: InstallStep) -> bool {
    match step {
        InstallStep::Installed | InstallStep::Failed | InstallStep::RolledBack
        | InstallStep::Unsupported => true,
        _ => false,
    }
}

/// The first step of setting up the automatic start.
pub fn begin_install(platform: Platform) -> (r: InstallStep)
    ensures
        r == first_step(platform),
{
    match platform {
        Platform::Other => InstallStep::Unsupported,
        _ => InstallStep::Contact,
    }
}

/// The step that follows, given whether the last one worked.
pub fn platform_install(platform: Platform, step: InstallStep, worked: bool) -> (r: InstallStep)
    ensures
        r == next_step(platform, step, worked),
{
    match step {
        InstallStep::RollBack | InstallStep::RemoveFile | InstallStep::Settle => {
            return match (platform, step) {
                (Platform::Linux, InstallStep::RollBack) => InstallStep::RemoveFile,
                (Platform::Linux, InstallStep::RemoveFile) => InstallStep::Settle,
                _ => InstallStep::RolledBack,
            };
        },
        _ => {},
    }
    if worked {
        match (platform, step) {
            (_, InstallStep::Contact) => InstallStep::Probe,
            (Platform::Windows, InstallStep::Probe) => InstallStep::Register,
            (_, InstallStep::Probe) => InstallStep::Write,
            (Platform::Linux, InstallStep::Write) => InstallStep::Reload,
            (_, InstallStep::Write) => InstallStep::Register,
            (_, InstallStep::Reload) => InstallStep::Register,
            (Platform::Windows, InstallStep::Register) => InstallStep::Configure,
            (_, InstallStep::Register) => InstallStep::Installed,
            (_, InstallStep::Configure) => InstallStep::Start,
            (_, InstallStep::Start) => InstallStep::Installed,
            (_, other) => other,
        }
    } else {
        match step {
            InstallStep::Reload
            | InstallStep::Register
            | InstallStep::Configure
            | InstallStep::Start => match platform {
                Platform::MacOs => InstallStep::RemoveFile,
                _ => InstallStep::RollBack,
            },
            InstallStep::Contact | InstallStep::Probe | InstallStep::Write => InstallStep::Failed,
            other => other,
        }
    }
}

/// The arguments that let PowerShell set up a task of Windows.
pub const CONFIGURE_SCRIPT: &'static str =
    "$task = Get-ScheduledTask -TaskName $env:CODECRAB_CRON_TASK_NAME -ErrorAction Stop; $task.Settings.ExecutionTimeLimit = 'PT0S'; $task.Settings.MultipleInstances = 'IgnoreNew'; $task.Settings.RestartCount = 999; $task.Settings.RestartInterval = 'PT1M'; $task.Settings.DisallowStartIfOnBatteries = $false; $task.Settings.StopIfGoingOnBatteries = $false; Set-ScheduledTask -InputObject $task -ErrorAction Stop | Out-Null";

/// What is run in a step: the program, then its arguments. `name` is the name of the service,
/// `detail` the command of a task of Windows, or the file of an agent of launchd, and `domain` the
/// domain of launchd.
pub open spec fn command_of(
    platform: Platform,
    step: InstallStep,
    name: Seq<char>,
    detail: Seq<char>,
    domain: Seq<char>,
) -> Seq<Seq<char>> {
    match (platform, step) {
        (Platform::Windows, InstallStep::Contact) => seq!["schtasks"@, "/Query"@, "/FO"@, "LIST"@],
        (Platform::Windows, InstallStep::Probe) => seq!["schtasks"@, "/Query"@, "/TN"@, name],
        (Platform::Windows, InstallStep::Register) => seq![
            "schtasks"@,
            "/Create"@,
            "/TN"@,
            name,
            "/TR"@,
            detail,
            "/SC"@,
            "ONLOGON"@,
            "/RL"@,
            "LIMITED"@,
            "/F"@,
        ],
        (Platform::Windows, InstallStep::Configure) => seq![
            "powershell.exe"@,
            "-NoLogo"@,
            "-NoProfile"@,
            "-NonInteractive"@,
            "-Command"@,
            CONFIGURE_SCRIPT@,
        ],
        (Platform::Windows, InstallStep::Start) => seq!["schtasks"@, "/Run"@, "/TN"@, name],
        (Platform::Windows, InstallStep::RollBack) => seq![
            "schtasks"@,
            "/Delete"@,
            "/TN"@,
            name,
            "/F"@,
        ],
        (Platform::Linux, InstallStep::Contact) => seq![
            "systemctl"@,
            "--user"@,
            "show-environment"@,
        ],
        (Platform::Linux, InstallStep::Reload) => seq!["systemctl"@, "--user"@, "daemon-reload"@],
        (Platform::Linux, InstallStep::Register) => seq![
            "systemctl"@,
            "--user"@,
            "enable"@,
            "--now"@,
            name,
        ],
        (Platform::Linux, InstallStep::RollBack) => seq![
            "systemctl"@,
            "--user"@,
            "disable"@,
            "--now"@,
            name,
        ],
        (Platform::Linux, InstallStep::Settle) => seq!["systemctl"@, "--user"@, "daemon-reload"@],
        (Platform::MacOs, InstallStep::Contact) => seq!["launchctl"@, "print"@, domain],
        (Platform::MacOs, InstallStep::Register) => seq![
            "launchctl"@,
            "bootstrap"@,
            domain,
            detail,
        ],
        _ => Seq::empty(),
    }
}

/// What is run in a step: the program, then its arguments; nothing where the step runs no command.
#[verifier::rlimit(40)]
pub fn install_command(
    platform: Platform,
    step: InstallStep,
    name: &str,
    detail: &str,
    domain: &str,
) -> (r: Vec<String>)
    ensures
        text::views(r@) == command_of(platform, step, name@, detail@, domain@),
{
    let none = text::no_texts();
    match (platform, step) {
        (Platform::Windows, InstallStep::Contact) => text::with(
            text::with(text::with(text::with(none, "schtasks"), "/Query"), "/FO"),
            "LIST",
        ),
        (Platform::Windows, InstallStep::Probe) => text::with(
            text::with(text::with(text::with(none, "schtasks"), "/Query"), "/TN"),
            name,
        ),
        (Platform::Windows, InstallStep::Register) => {
            let create = text::with(
                text::with(text::with(text::with(none, "schtasks"), "/Create"), "/TN"),
                name,
            );
            let logon = text::with(
                text::with(text::with(text::with(create, "/TR"), detail), "/SC"),
                "ONLOGON",
            );
            text::with(text::with(text::with(logon, "/RL"), "LIMITED"), "/F")
        },
        (Platform::Windows, InstallStep::Configure) => {
            let shell = text::with(
                text::with(text::with(none, "powershell.exe"), "-NoLogo"),
                "-NoProfile",
            );
            text::with(
                text::with(text::with(shell, "-NonInteractive"), "-Command"),
                CONFIGURE_SCRIPT,
            )
        },
        (Platform::Windows, InstallStep::Start) => text::with(
            text::with(text::with(text::with(none, "schtasks"), "/Run"), "/TN"),
            name,
        ),
        (Platform::Windows, InstallStep::RollBack) => text::with(
            text::with(
                text::with(text::with(text::with(none, "schtasks"), "/Delete"), "/TN"),
                name,
            ),
            "/F",
        ),
        (Platform::Linux, InstallStep::Contact) => text::with(
            text::with(text::with(none, "systemctl"), "--user"),
            "show-environment",
        ),
        (Platform::Linux, InstallStep::Reload) => text::with(
            text::with(text::with(none, "systemctl"), "--user"),
            "daemon-reload",
        ),
        (Platform::Linux, InstallStep::Register) => text::with(
            text::with(
                text::with(text::with(text::with(none, "systemctl"), "--user"), "enable"),
                "--now",
            ),
            name,
        ),
        (Platform::Linux, InstallStep::RollBack) => text::with(
            text::with(
                text::with(text::with(text::with(none, "systemctl"), "--user"), "disable"),
                "--now",
            ),
            name,
        ),
        (Platform::Linux, InstallStep::Settle) => text::with(
            text::with(text::with(none, "systemctl"), "--user"),
            "daemon-reload",
        ),
        (Platform::MacOs, InstallStep::Contact) => text::with(
            text::with(text::with(none, "launchctl"), "print"),
            domain,
        ),
        (Platform::MacOs, InstallStep::Register) => text::with(
            text::with(text::with(text::with(none, "launchctl"), "bootstrap"), domain),
            detail,
        ),
        _ => none,
    }
}

/// What a step is for, in words that follow "cannot".
pub open spec fn purpose_of(platform: Platform, step: InstallStep) -> Seq<char> {
    match (platform, step) {
        (Platform::Windows, InstallStep::Contact) => "query Windows Task Scheduler"@,
        (Platform::Windows, InstallStep::Register) => "create the Windows cron autostart task"@,
        (Platform::Windows, InstallStep::Configure) =>
            "configure the Windows cron task for continuous execution"@,
        (Platform::Windows, InstallStep::Start) => "start the Windows cron task"@,
        (Platform::Linux, InstallStep::Contact) => "connect to the running systemd user manager"@,
        (Platform::Linux, InstallStep::Reload) => "reload the systemd user manager"@,
        (Platform::Linux, InstallStep::Register) => "enable the systemd user cron service"@,
        (Platform::MacOs, InstallStep::Contact) => "connect to the per-user launchd domain"@,
        (Platform::MacOs, InstallStep::Register) => "register the launchd cron agent"@,
        _ => ""@,
    }
}

/// What a step is for, in words that follow "cannot".
pub fn step_purpose(platform: Platform, step: InstallStep) -> (s: &'static str)
    ensures
        s@ == purpose_of(platform, step),
{
    match (platform, step) {
        (Platform::Windows, InstallStep::Contact) => "query Windows Task Scheduler",
        (Platform::Windows, InstallStep::Register) => "create the Windows cron autostart task",
        (Platform::Windows, InstallStep::Configure) =>
            "configure the Windows cron task for continuous execution",
        (Platform::Windows, InstallStep::Start) => "start the Windows cron task",
        (Platform::Linux, InstallStep::Contact) => "connect to the running systemd user manager",
        (Platform::Linux, InstallStep::Reload) => "reload the systemd user manager",
        (Platform::Linux, InstallStep::Register) => "enable the systemd user cron service",
        (Platform::MacOs, InstallStep::Contact) => "connect to the per-user launchd domain",
        (Platform::MacOs, InstallStep::Register) => "register the launchd cron agent",
        _ => "",
    }
}

/// What a person is told where the name or the file is taken.
pub fn taken_message(platform: Platform, name: &str, artifact: &str) -> (s: String)
    ensures
        s@ == (match platform {
            Platform::Windows => "Windows scheduled task "@ + text::quoted(name@)
                + " already exists"@,
            Platform::MacOs => "launchd agent already exists: "@ + artifact@,
            _ => "systemd user unit already exists: "@ + artifact@,
        }),
{
    match platform {
        Platform::Windows => text::cat3(
            "Windows scheduled task ",
            &text::quote(name),
            " already exists",
        ),
        Platform::MacOs => text::cat2("launchd agent already exists: ", artifact),
        _ => text::cat2("systemd user unit already exists: ", artifact),
    }
}

/// What a person is told besides, where a step failed and what was changed is taken back.
pub fn rollback_context(platform: Platform, step: InstallStep) -> (r: Option<String>)
    ensures
        message::opt_view(r) == (match (platform, step) {
            (Platform::Windows, InstallStep::Configure) => Some(
                "the partial Windows installation was rolled back"@,
            ),
            (Platform::Windows, InstallStep::Start) => Some(
                "the partial Windows installation was rolled back"@,
            ),
            (Platform::Linux, InstallStep::Reload) => Some(
                "the partial systemd installation was rolled back"@,
            ),
            (Platform::Linux, InstallStep::Register) => Some(
                "the partial systemd installation was rolled back"@,
            ),
            (Platform::MacOs, InstallStep::Register) => Some(
                "the partial launchd installation was rolled back"@,
            ),
            _ => None,
        }),
{
    match (platform, step) {
        (Platform::Windows, InstallStep::Configure) => Some(
            "the partial Windows installation was rolled back".to_owned(),
        ),
        (Platform::Windows, InstallStep::Start) => Some(
            "the partial Windows installation was rolled back".to_owned(),
        ),
        (Platform::Linux, InstallStep::Reload) => Some(
            "the partial systemd installation was rolled back".to_owned(),
        ),
        (Platform::Linux, InstallStep::Register) => Some(
            "the partial systemd installation was rolled back".to_owned(),
        ),
        (Platform::MacOs, InstallStep::Register) => Some(
            "the partial launchd installation was rolled back".to_owned(),
        ),
        _ => None,
    }
}

/// What is stored of an automatic start that was set up at `now`.
pub fn installed(
    platform: Platform,
    name: String,
    artifact: Option<String>,
    executable: String,
    schedule_path: String,
    now: i128,
) -> (r: CronInstallation)
    ensures
        r.version == 1,
        r.method@ == (match platform {
            Platform::Windows => "windows_task_scheduler"@,
            Platform::MacOs => "launch_agent"@,
            _ => "systemd_user"@,
        }),
        r.name == name,
        r.artifact == artifact,
        r.executable == executable,
        r.schedule_path == schedule_path,
        r.installed_at == now,
{
    let method = match platform {
        Platform::Windows => "windows_task_scheduler",
        Platform::MacOs => "launch_agent",
        _ => "systemd_user",
    };
    CronInstallation {
        version: 1,
        method: method.to_owned(),
        name,
        artifact,
        executable,
        schedule_path,
        installed_at: now,
    }
}

/// The step after some steps, given whether each of them worked.
pub open spec fn step_at(platform: Platform, worked: Seq<bool>) -> InstallStep
    decreases worked.len(),
{
    if worked.len() == 0 {
        first_step(platform)
    } else {
        next_step(platform, step_at(platform, worked.drop_last()), worked.last())
    }
}

/// Setting up the automatic start ends after at most eight steps, with it installed where every step
/// worked. Where it did not, what was changed has been taken back.
pub proof fn setting_up_ends(platform: Platform, worked: Seq<bool>)
    requires
        worked.len() == 8,
    ensures
        is_last(step_at(platform, worked)),
        (forall|i: int| 0 <= i < 8 ==> #[trigger] worked[i]) && platform != Platform::Other
            ==> step_at(platform, worked) == InstallStep::Installed,
        forall|n: int|
            0 <= n < 8 && changes(#[trigger] step_at(platform, worked.take(n))) && !worked[n]
                ==> step_at(platform, worked) == InstallStep::RolledBack,
{
    reveal_with_fuel(step_at, 9);
    let a = worked.drop_last();
    let b = a.drop_last();
    let c = b.drop_last();
    let d = c.drop_last();
    let e = d.drop_last();
    let f = e.drop_last();
    let g = f.drop_last();
    assert(worked.last() == worked[7]);
    assert(a.last() == worked[6]);
    assert(b.last() == worked[5]);
    assert(c.last() == worked[4]);
    assert(d.last() == worked[3]);
    assert(e.last() == worked[2]);
    assert(f.last() == worked[1]);
    assert(g.last() == worked[0]);
    assert(worked.take(7) == a);
    assert(worked.take(6) == b);
    assert(worked.take(5) == c);
    assert(worked.take(4) == d);
    assert(worked.take(3) == e);
    assert(worked.take(2) == f);
    assert(worked.take(1) == g);
    assert(worked.take(0) == g.drop_last());
}

/// What this program writes down for systemd it also recognises as its own.
pub proof fn own_units_are_recognised(executable: Seq<char>, schedule: Seq<char>)
    ensures
        text::contains_text(unit_of(executable, schedule), "Managed by CodeCrab"@),
{
    reveal_strlit("# Managed by CodeCrab for ");
    reveal_strlit("Managed by CodeCrab");
    let unit = unit_of(executable, schedule);
    let head = "# Managed by CodeCrab for "@;
    let mark = "Managed by CodeCrab"@;
    assert(unit.subrange(2, 2 + mark.len() as int) == mark) by {
        assert(head.subrange(2, 2 + mark.len() as int) == mark);
    }
    assert(text::occurs_at(unit, mark, 2));
}

/// The automatic start is told by what is there: what is stored and registered runs or is stopped,
/// what is stored alone is unhealthy, and a daemon that nothing is stored of runs by itself.
pub proof fn the_automatic_start_is_told_by_what_is_there(daemon: CronDaemonStatus)
    ensures
        ({
            let runs = daemon == CronDaemonStatus::Running;
            &&& forall|registered: bool| #[trigger]
                status_of(daemon, false, registered) == (if runs {
                    CronInstallationStatus::RunningUnmanaged
                } else {
                    CronInstallationStatus::NotInstalled
                })
            &&& status_of(daemon, true, false) == CronInstallationStatus::Unhealthy
            &&& status_of(daemon, true, true) == (if runs {
                CronInstallationStatus::Running
            } else {
                CronInstallationStatus::InstalledStopped
            })
        }),
{
}

proof fn lemma_one_line(path: Seq<char>)
    ensures
        !text::spread(path, |c: char| unit_char(c)).contains('\n'),
        !text::spread(path, |c: char| unit_char(c)).contains('\r'),
        !text::spread(path, |c: char| unit_char(c)).contains('\t'),
    decreases path.len(),
{
    let f = |c: char| unit_char(c);
    let s = text::spread(path, f);
    if path.len() > 0 {
        lemma_one_line(path.drop_last());
        let before = text::spread(path.drop_last(), f);
        let last = unit_char(path.last());
        assert(s == before + last);
        assert forall|k: int| 0 <= k < s.len() implies s[k] != '\n' && s[k] != '\r' && s[k]
            != '\t' by {
            if k < before.len() {
                assert(before.contains(before[k]));
            } else {
                assert(s[k] == last[k - before.len()]);
            }
        }
    }
}

/// A path in a unit stands between quotation marks in one line; a character without a meaning of its
/// own stands for itself, and one with a meaning stands behind a mark.
pub proof fn paths_in_units_stand_in_one_line(path: Seq<char>, c: char)
    ensures
        !text::spread(path, |x: char| unit_char(x)).contains('\n'),
        unit_quoted(path) == "\""@ + text::spread(path, |x: char| unit_char(x)) + "\""@,
        c != '\\' && c != '"' && c != '%' && c != '\n' && c != '\r' && c != '\t' ==> unit_char(c)
            == seq![c],
        c == '\\' || c == '"' ==> unit_char(c) == seq!['\\', c],
        c == '%' ==> unit_char(c) == seq![c, c],
        unit_char('\n') == seq!['\\', 'n'],
        unit_char('\r') == seq!['\\', 'r'],
        unit_char('\t') == seq!['\\', 't'],
{
    lemma_one_line(path);
    let f = |x: char| unit_char(x);
    assert(text::spread(path, f) == text::spread(path, |c: char| unit_char(c)));
}

/// A character without a meaning in XML stands for itself there, and no mark of XML is left of one
/// that has a meaning.
pub proof fn texts_in_xml_hold_no_marks(c: char)
    ensures
        c != '&' && c != '<' && c != '>' && c != '"' && c != '\'' ==> xml_char(c) == seq![c],
        xml_char('&') == "&amp;"@,
        xml_char('<') == "&lt;"@,
        xml_char('>') == "&gt;"@,
        xml_char('"') == "&quot;"@,
        xml_char('\'') == "&apos;"@,
        xml_of(Seq::empty()).len() == 0,
        forall|s: Seq<char>| #[trigger] xml_of(s.push(c)) == xml_of(s) + xml_char(c),
{
    assert forall|s: Seq<char>| #[trigger] xml_of(s.push(c)) == xml_of(s) + xml_char(c) by {
        text::characters_are_spread_in_a_row(s, c, |x: char| xml_char(x));
    }
}

/// What starts the daemon names the program and the schedule, each as it is written there.
pub proof fn what_starts_the_daemon_names_it(
    label: Seq<char>,
    executable: Seq<char>,
    schedule: Seq<char>,
) -> (at: (int, int, int, int, int))
    ensures
        text::occurs_at(unit_of(executable, schedule), unit_quoted(executable), at.0),
        text::occurs_at(
            unit_of(executable, schedule),
            " cron "@ + unit_quoted(schedule),
            at.0 + unit_quoted(executable).len(),
        ),
        text::occurs_at(agent_of(label, executable, schedule), xml_of(label), at.1),
        text::occurs_at(agent_of(label, executable, schedule), xml_of(executable), at.2),
        text::occurs_at(agent_of(label, executable, schedule), xml_of(schedule), at.3),
        at.1 <= at.2 <= at.3,
        text::occurs_at(task_command_of(executable, schedule), executable, 1),
        text::occurs_at(task_command_of(executable, schedule), schedule, at.4),
{
    reveal_strlit("\"");
    let u = unit_of(executable, schedule);
    let e = unit_quoted(executable);
    let s = unit_quoted(schedule);
    let head = "# Managed by CodeCrab for "@ + schedule
        + "\n[Unit]\nDescription=CodeCrab scheduled agent tasks\n\n[Service]\nType=simple\nExecStart="@;
    let x = head.len() as int;
    assert(u.subrange(x, x + e.len()) == e);
    assert(u.subrange(x + e.len(), x + e.len() + (" cron "@ + s).len()) == " cron "@ + s);
    let a = agent_of(label, executable, schedule);
    let (p, q, r) = lemma_agent(label, executable, schedule);
    let t = task_command_of(executable, schedule);
    assert(t.subrange(1, (1 + executable.len()) as int) == executable);
    let y = 1 + executable.len() as int + "\" cron \""@.len();
    assert(t.subrange(y, y + schedule.len()) == schedule);
    (x, p, q, r, y)
}

/// A service is called by its id, in the way of its platform, and two ids never give one name.
pub proof fn services_are_called_by_their_ids(platform: Platform, a: Seq<char>, b: Seq<char>)
    ensures
        text::contains_text(service_name_of(platform, a), a),
        service_name_of(platform, a) == service_name_of(platform, b) ==> a == b,
{
    let x = service_name_of(platform, a);
    let y = service_name_of(platform, b);
    let p = match platform {
        Platform::Windows => "CodeCrab Cron "@,
        Platform::MacOs => "com.codecrab.cron."@,
        _ => "codecrab-cron-"@,
    };
    let n = p.len() as int;
    assert(x.subrange(n, n + a.len()) == a);
    assert(text::occurs_at(x, a, n));
    if x == y {
        assert(y.subrange(n, n + b.len()) == b);
        assert(a.len() == b.len());
    }
}

/// On Windows, places that differ in the cases of letters alone are one.
pub proof fn cases_of_letters_count_but_on_windows(platform: Platform, place: Seq<char>)
    ensures
        platform != Platform::Windows ==> identity_of(platform, place) == place,
        identity_of(Platform::Windows, text::ascii_lower(place)) == identity_of(
            Platform::Windows,
            place,
        ),
{
    if place.len() > 0 {
        text::large_letters_become_small(place, 0);
    } else {
        assert(text::ascii_lower(text::ascii_lower(place)) == text::ascii_lower(place));
    }
}

/// A step that fails before anything is changed ends all; one that fails behind a change is taken
/// back; one that works leads on.
pub proof fn what_was_changed_is_taken_back(platform: Platform)
    ensures
        next_step(platform, InstallStep::Contact, false) == InstallStep::Failed,
        next_step(platform, InstallStep::Probe, false) == InstallStep::Failed,
        next_step(platform, InstallStep::Contact, true) == InstallStep::Probe,
        next_step(Platform::Windows, InstallStep::Probe, true) == InstallStep::Register,
        next_step(Platform::Linux, InstallStep::Write, true) == InstallStep::Reload,
        next_step(Platform::MacOs, InstallStep::Write, true) == InstallStep::Register,
        platform == Platform::Linux || platform == Platform::MacOs ==> next_step(
            platform,
            InstallStep::Probe,
            true,
        ) == InstallStep::Write,
        platform != Platform::MacOs ==> next_step(platform, InstallStep::Register, false)
            == InstallStep::RollBack,
        next_step(Platform::MacOs, InstallStep::Register, false) == InstallStep::RemoveFile,
        next_step(Platform::Linux, InstallStep::Register, true) == InstallStep::Installed,
        next_step(Platform::MacOs, InstallStep::Register, true) == InstallStep::Installed,
        next_step(Platform::Windows, InstallStep::Register, true) == InstallStep::Configure,
        next_step(Platform::Windows, InstallStep::Configure, true) == InstallStep::Start,
        next_step(Platform::Windows, InstallStep::Start, true) == InstallStep::Installed,
        forall|worked: bool| #[trigger]
            next_step(Platform::Linux, InstallStep::RollBack, worked) == InstallStep::RemoveFile,
        forall|worked: bool| #[trigger]
            next_step(Platform::Linux, InstallStep::RemoveFile, worked) == InstallStep::Settle,
{
}

/// What is run to set a service up names it, and on Windows what it starts.
pub proof fn commands_name_the_service(name: Seq<char>, detail: Seq<char>, domain: Seq<char>)
    ensures
        command_of(Platform::Windows, InstallStep::Probe, name, detail, domain).contains(name),
        command_of(Platform::Windows, InstallStep::Register, name, detail, domain).contains(name),
        command_of(Platform::Windows, InstallStep::Register, name, detail, domain).contains(detail),
        command_of(Platform::Windows, InstallStep::Start, name, detail, domain).contains(name),
        command_of(Platform::Windows, InstallStep::RollBack, name, detail, domain).contains(name),
        command_of(Platform::Linux, InstallStep::Register, name, detail, domain).contains(name),
        command_of(Platform::Linux, InstallStep::Register, name, detail, domain).contains(
            "enable"@,
        ),
        command_of(Platform::Linux, InstallStep::RollBack, name, detail, domain).contains(name),
        command_of(Platform::Linux, InstallStep::RollBack, name, detail, domain).contains(
            "disable"@,
        ),
        command_of(Platform::MacOs, InstallStep::Register, name, detail, domain).contains(domain),
        command_of(Platform::MacOs, InstallStep::Register, name, detail, domain).contains(detail),
{
    assert(command_of(Platform::Windows, InstallStep::Probe, name, detail, domain)[3] == name);
    assert(command_of(Platform::Windows, InstallStep::Register, name, detail, domain)[3] == name);
    assert(command_of(Platform::Windows, InstallStep::Register, name, detail, domain)[5] == detail);
    assert(command_of(Platform::Windows, InstallStep::Start, name, detail, domain)[3] == name);
    assert(command_of(Platform::Windows, InstallStep::RollBack, name, detail, domain)[3] == name);
    assert(command_of(Platform::Linux, InstallStep::Register, name, detail, domain)[4] == name);
    assert(command_of(Platform::Linux, InstallStep::Register, name, detail, domain)[2]
        == "enable"@);
    assert(command_of(Platform::Linux, InstallStep::RollBack, name, detail, domain)[4] == name);
    assert(command_of(Platform::Linux, InstallStep::RollBack, name, detail, domain)[2]
        == "disable"@);
    assert(command_of(Platform::MacOs, InstallStep::Register, name, detail, domain)[2] == domain);
    assert(command_of(Platform::MacOs, InstallStep::Register, name, detail, domain)[3] == detail);
}

proof fn lemma_agent(label: Seq<char>, executable: Seq<char>, schedule: Seq<char>) -> (at: (
    int,
    int,
    int,
))
    ensures
        text::occurs_at(agent_of(label, executable, schedule), xml_of(label), at.0),
        text::occurs_at(agent_of(label, executable, schedule), xml_of(executable), at.1),
        text::occurs_at(agent_of(label, executable, schedule), xml_of(schedule), at.2),
        at.0 <= at.1 <= at.2,
{
    let a = agent_of(label, executable, schedule);
    let l = xml_of(label);
    let e = xml_of(executable);
    let s = xml_of(schedule);
    let b = "</string><key>ProgramArguments</key><array><string>"@;
    let c = "</string><string>cron</string><string>"@;
    let d = "</string></array><key>RunAtLoad</key><true/><key>KeepAlive</key><true/></dict></plist>\n"@;
    let x = a.len() - d.len() - s.len() - c.len() - e.len() - b.len() - l.len();
    let y = x + l.len() + b.len();
    let z = y + e.len() + c.len();
    assert(a.subrange(x, x + l.len()) == l);
    assert(a.subrange(y, y + e.len()) == e);
    assert(a.subrange(z, z + s.len()) == s);
    (x, y, z)
}

/// A job is executed here where both locks could be had, by the daemon where it holds its lock, and
/// else not at all.
pub proof fn a_job_is_executed_by_one(
    direct: Result<(), String>,
    daemon: Result<(), String>,
    active: bool,
    r: RunWay,
)
    requires
        call_ensures(way_to_run, (direct, daemon, active), r),
    ensures
        r is Here <==> direct is Ok && daemon is Ok,
        r is ByTheDaemon <==> direct is Ok && daemon is Err && active,
        r is Refused <==> direct is Err || (daemon is Err && !active),
{
}

/// The automatic start is set up only where no daemon runs, the program is there and nothing is stored
/// of it yet.
pub proof fn the_automatic_start_is_set_up_once(
    daemon: CronDaemonStatus,
    executable: &str,
    exists: bool,
    stored: bool,
    r: Result<(), InstallError>,
)
    requires
        call_ensures(check_install, (daemon, executable, exists, stored), r),
    ensures
        r is Ok <==> daemon == CronDaemonStatus::Stopped && exists && !stored,
        r == Err::<(), InstallError>(InstallError::DaemonRunning) <==> daemon
            == CronDaemonStatus::Running,
        r matches Err(InstallError::MissingExecutable(p)) ==> !exists && p@ == executable@,
{
}

/// The daemon runs where its lock is held, unless an execution beside it holds it.
pub proof fn the_daemon_runs_where_its_lock_is_held(
    lock: bool,
    direct: bool,
    r: CronDaemonStatus,
)
    requires
        call_ensures(daemon_status, (lock, direct), r),
    ensures
        !lock ==> r == CronDaemonStatus::Stopped,
        direct ==> r == CronDaemonStatus::Stopped,
        lock && !direct ==> r == CronDaemonStatus::Running,
{
}

/// Of a command that failed it is told what it wrote to its error output, and else to its output.
pub proof fn what_a_command_wrote_is_told(action: &str, stdout: &str, stderr: &str, r: String)
    requires
        call_ensures(command_failure, (action, stdout, stderr), r),
    ensures
        text::trimmed(stderr@).len() > 0 ==> text::finishes_with(r@, text::trimmed(stderr@)),
        text::trimmed(stderr@).len() == 0 ==> text::finishes_with(r@, text::trimmed(stdout@)),
{
    let e = if text::trimmed(stderr@).len() == 0 {
        text::trimmed(stdout@)
    } else {
        text::trimmed(stderr@)
    };
    assert(r@.subrange(r@.len() - e.len(), r@.len() as int) == e);
}

/// A file is deleted exactly where this program wrote it.
pub proof fn only_own_files_are_deleted(
    platform: Platform,
    contents: &str,
    name: &str,
    artifact: &str,
    own: bool,
    r: Result<(), String>,
)
    requires
        call_ensures(check_removal, (platform, contents, name, artifact), r),
        call_ensures(is_own_artifact, (platform, contents, name), own),
    ensures
        r is Ok <==> own,
        platform != Platform::MacOs ==> (own <==> text::contains_text(
            contents@,
            "Managed by CodeCrab"@,
        )),
        platform == Platform::MacOs ==> (own <==> text::contains_text(contents@, name@)),
        r matches Err(e) ==> text::finishes_with(e@, artifact@),
{
    if let Err(e) = r {
        assert(e@.subrange(e@.len() - artifact@.len(), e@.len() as int) == artifact@);
    }
}

} // verus!
