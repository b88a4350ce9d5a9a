//! Logs of errors, and of what is said to providers.
use crate::ids;
use crate::message;
use crate::paths;
use crate::paths::Platform;
use crate::text;
use vstd::prelude::*;
use vstd::string::*;

verus! {

/// A log of errors that is kept in a file, and not begun before there is one.
#[derive(Debug)]
pub struct TuiLogState {
    pub path: String,
    pub custom_path: bool,
    pub open: bool,
    pub wrote: bool,
    pub failure: Option<String>,
}

/// What a log says when all is over.
#[derive(Debug)]
pub struct DiagnosticReport {
    pub path: Option<String>,
    pub failure: Option<String>,
}

/// What has to be done to log an error.
#[derive(Clone, Copy, Debug, PartialEq, Eq, Structural)]
pub enum LogAction {
    /// Nothing: the log has failed.
    Skip,
    /// Open the file and add to what it holds.
    OpenToAppend,
    /// Open the file, which must not be there.
    OpenNew,
    /// Write the error.
    Write,
}

/// The name of a log, of when it was begun and under a new id.
pub open spec fn log_name(time: Seq<char>, id: u128) -> Seq<char> {
    "codecrab-log-"@ + time + "-"@ + ids::id_view(id) + ".log"@
}

impl TuiLogState {
    /// A log before anything is logged: under the given path, or under a name of its own in a
    /// directory.
    pub fn tui_in(
        platform: Platform,
        path: Option<String>,
        temp_dir: &str,
        time: &str,
        id: u128,
    ) -> (r: TuiLogState)
        ensures
            r.custom_path == path is Some,
            r.path@ == (match path {
                Some(p) => p@,
                None => paths::joined(platform, temp_dir@, log_name(time@, id)),
            }),
            !r.open,
            !r.wrote,
            r.failure is None,
    {
        let custom_path = path.is_some();
        let path = match path {
            Some(p) => p,
            None => paths::join(
                platform,
                temp_dir,
                &text::cat5("codecrab-log-", time, "-", &ids::id_text(id), ".log"),
            ),
        };
        TuiLogState { path, custom_path, open: false, wrote: false, failure: None }
    }

    /// What has to be done to log an error.
    pub fn error(&self) -> (r: LogAction)
        ensures
            r == (if self.failure is Some {
                LogAction::Skip
            } else if self.open {
                LogAction::Write
            } else if self.custom_path {
                LogAction::OpenToAppend
            } else {
                LogAction::OpenNew
            }),
    {
        if self.failure.is_some() {
            LogAction::Skip
        } else if self.open {
            LogAction::Write
        } else if self.custom_path {
            LogAction::OpenToAppend
        } else {
            LogAction::OpenNew
        }
    }

    /// The file was opened, or could not be.
    pub fn opened(&mut self, error: Option<&str>)
        ensures
            final(self).path == old(self).path,
            final(self).custom_path == old(self).custom_path,
            final(self).wrote == old(self).wrote,
            match error {
                None => final(self).open && final(self).failure == old(self).failure,
                Some(e) => final(self).open == old(self).open && message::opt_view(
                    final(self).failure,
                ) == Some("cannot open error log "@ + old(self).path@ + ": "@ + e@),
            },
    {
        match error {
            None => {
                self.open = true;
            },
            Some(e) => {
                self.failure = Some(
                    text::cat4("cannot open error log ", &self.path, ": ", e),
                );
            },
        }
    }

    /// The error was written, or could not be.
    pub fn written(&mut self, error: Option<&str>)
        ensures
            final(self).path == old(self).path,
            final(self).custom_path == old(self).custom_path,
            final(self).open == old(self).open,
            match error {
                None => final(self).wrote && final(self).failure == old(self).failure,
                Some(e) => final(self).wrote == old(self).wrote && message::opt_view(
                    final(self).failure,
                ) == Some("cannot write error log "@ + old(self).path@ + ": "@ + e@),
            },
    {
        match error {
            None => {
                self.wrote = true;
            },
            Some(e) => {
                self.failure = Some(
                    text::cat4("cannot write error log ", &self.path, ": ", e),
                );
            },
        }
    }

    /// What the log says when all is over: where it is, if anything was logged, and what failed.
    pub fn report(&self) -> (r: DiagnosticReport)
        ensures
            r.path == (if self.wrote {
                Some(self.path)
            } else {
                None
            }),
            r.failure == self.failure,
    {
        let path = if self.wrote {
            Some(self.path.clone())
        } else {
            None
        };
        DiagnosticReport { path, failure: message::copy_text(&self.failure) }
    }
}

/// Where what goes wrong is told: on the screen, or in a log where the screen is taken.
#[derive(Debug)]
pub enum DiagnosticLog {
    Stderr,
    Tui(TuiLogState),
}

impl DiagnosticLog {
    /// Is a warning told? It is only where the screen is free; no log holds one.
    pub fn warning(&self) -> (told: bool)
        ensures
            told == (self is Stderr),
    {
        match self {
            DiagnosticLog::Stderr => true,
            DiagnosticLog::Tui(_) => false,
        }
    }

    /// What there is to say when all is over.
    pub fn report(&self) -> (r: DiagnosticReport)
        ensures
            match *self {
                DiagnosticLog::Stderr => r.path is None && r.failure is None,
                DiagnosticLog::Tui(state) => r.failure == state.failure && r.path == (
                if state.wrote {
                    Some(state.path)
                } else {
                    None
                }),
            },
    {
        match self {
            DiagnosticLog::Stderr => DiagnosticReport { path: None, failure: None },
            DiagnosticLog::Tui(state) => state.report(),
        }
    }
}

// ---------------------------------------------------------------------------
// What is said to providers

/// Where what is said to providers is written.
#[derive(Debug)]
pub enum DebugOutput {
    Disabled,
    Stderr,
    /// A file, which is opened when there is something to write.
    File { path: String, open: bool },
}

/// What has to be done to write something of what is said to providers.
#[derive(Clone, Copy, Debug, PartialEq, Eq, Structural)]
pub enum DebugAction {
    /// Nothing.
    Skip,
    /// Print it.
    Print,
    /// Open the file and add to what it holds.
    OpenToAppend,
    /// Write it to the open file.
    Write,
}

/// What can go wrong with what is said to providers.
#[derive(Clone, Copy, Debug, PartialEq, Eq, Structural)]
pub enum DebugFault {
    Open,
    Write,
    Flush,
}

impl DebugOutput {
    /// What is asked for: nothing, something, or something in a file.
    pub fn asked(asked: Option<Option<String>>) -> (r: DebugOutput)
        ensures
            r == (match asked {
                None => DebugOutput::Disabled,
                Some(None) => DebugOutput::Stderr,
                Some(Some(path)) => (DebugOutput::File { path, open: false }),
            }),
    {
        match asked {
            None => DebugOutput::Disabled,
            Some(None) => DebugOutput::Stderr,
            Some(Some(path)) => DebugOutput::file(path),
        }
    }

    /// A file, before anything is written.
    pub fn file(path: String) -> (r: DebugOutput)
        ensures
            r == (DebugOutput::File { path, open: false }),
    {
        DebugOutput::File { path, open: false }
    }

    /// Is anything written?
    pub fn is_enabled(&self) -> (r: bool)
        ensures
            r == !(self is Disabled),
    {
        match self {
            DebugOutput::Disabled => false,
            _ => true,
        }
    }

    /// What has to be done to write something.
    pub fn write_all(&self) -> (r: DebugAction)
        ensures
            r == self.action(),
    {
        match self {
            DebugOutput::Disabled => DebugAction::Skip,
            DebugOutput::Stderr => DebugAction::Print,
            DebugOutput::File { open, .. } => if *open {
                DebugAction::Write
            } else {
                DebugAction::OpenToAppend
            },
        }
    }

    pub open spec fn action(self) -> DebugAction {
        match self {
            DebugOutput::Disabled => DebugAction::Skip,
            DebugOutput::Stderr => DebugAction::Print,
            DebugOutput::File { open, .. } => if open {
                DebugAction::Write
            } else {
                DebugAction::OpenToAppend
            },
        }
    }

    /// The file was opened.
    pub fn opened(&mut self)
        ensures
            *final(self) == (match *old(self) {
                DebugOutput::File { path, .. } => (DebugOutput::File { path, open: true }),
                other => other,
            }),
    {
        if let DebugOutput::File { open, .. } = self {
            *open = true;
        }
    }

    /// What is told of something that went wrong.
    pub fn failure(&self, fault: DebugFault) -> (s: String)
        ensures
            s@ == self.failure_text(fault),
    {
        match self {
            DebugOutput::File { path, .. } => match fault {
                DebugFault::Open => text::cat2("cannot open OpenAI debug output file ", path),
                DebugFault::Write => text::cat2("cannot write OpenAI debug output to ", path),
                DebugFault::Flush => text::cat2("cannot flush OpenAI debug output to ", path),
            },
            _ => match fault {
                DebugFault::Flush => "cannot flush OpenAI debug output to stderr".to_owned(),
                _ => "cannot write OpenAI debug output to stderr".to_owned(),
            },
        }
    }

    pub open spec fn failure_text(self, fault: DebugFault) -> Seq<char> {
        match self {
            DebugOutput::File { path, .. } => (match fault {
                DebugFault::Open => "cannot open OpenAI debug output file "@,
                DebugFault::Write => "cannot write OpenAI debug output to "@,
                DebugFault::Flush => "cannot flush OpenAI debug output to "@,
            }) + path@,
            _ => match fault {
                DebugFault::Flush => "cannot flush OpenAI debug output to stderr"@,
                _ => "cannot write OpenAI debug output to stderr"@,
            },
        }
    }
}

/// What is meant for a file is never printed, whether or not the file can be opened: it may hold
/// secrets.
pub proof fn a_file_never_gives_way_to_the_screen(output: DebugOutput)
    requires
        output is File,
    ensures
        output.action() != DebugAction::Print,
        output.action() != DebugAction::Skip,
{
}

/// The lines of the first `n` headers.
pub open spec fn header_lines(headers: Seq<(String, String)>, n: nat) -> Seq<char>
    decreases n,
{
    if n == 0 {
        Seq::empty()
    } else {
        header_lines(headers, (n - 1) as nat) + headers[n - 1].0@ + ": "@ + headers[n - 1].1@
            + "\n"@
    }
}

fn headers_text(headers: &Vec<(String, String)>) -> (s: String)
    ensures
        s@ == header_lines(headers@, headers@.len()),
{
    let mut s = String::new();
    let mut i: usize = 0;
    while i < headers.len()
        invariant
            i <= headers@.len(),
            s@ == header_lines(headers@, i as nat),
        decreases headers@.len() - i,
    {
        s.append(headers[i].0.as_str());
        s.append(": ");
        s.append(headers[i].1.as_str());
        s.append("\n");
        i += 1;
    }
    s
}

/// A request, as logged.
pub fn request(
    method: &str,
    url: &str,
    version: &str,
    headers: &Vec<(String, String)>,
    body: Option<&str>,
) -> (s: String)
    ensures
        s@ == "\n===== OPENAI REQUEST =====\n"@ + method@ + " "@ + url@ + " "@ + version@ + "\n"@
            + header_lines(headers@, headers@.len()) + "\n"@ + (match body {
            Some(b) => b@ + "\n"@,
            None => Seq::empty(),
        }) + "===== END OPENAI REQUEST =====\n\n"@,
{
    let head = text::cat5("\n===== OPENAI REQUEST =====\n", method, " ", url, " ");
    let mut s = text::cat5(&head, version, "\n", &headers_text(headers), "\n");
    let sent = match body {
        Some(b) => text::cat2(b, "\n"),
        None => String::new(),
    };
    s.append(sent.as_str());
    s.append("===== END OPENAI REQUEST =====\n\n");
    s
}

/// A response, as logged.
pub fn response(
    url: &str,
    version: &str,
    status: &str,
    headers: &Vec<(String, String)>,
    body: &str,
) -> (s: String)
    ensures
        s@ == "\n===== OPENAI RESPONSE =====\n"@ + url@ + " "@ + version@ + " "@ + status@ + "\n"@
            + header_lines(headers@, headers@.len()) + "\n"@ + body@ + "\n"@
            + "===== END OPENAI RESPONSE =====\n\n"@,
{
    let head = text::cat5("\n===== OPENAI RESPONSE =====\n", url, " ", version, " ");
    let mut s = text::cat5(&head, status, "\n", &headers_text(headers), "\n");
    s.append(body);
    s.append("\n");
    s.append("===== END OPENAI RESPONSE =====\n\n");
    s
}

// ---------------------------------------------------------------------------
// Laws
proof fn lemma_headers(headers: Seq<(String, String)>, one: (String, String), n: nat)
    requires
        n <= headers.len(),
    ensures
        header_lines(headers.push(one), n) == header_lines(headers, n),
    decreases n,
{
    if n > 0 {
        lemma_headers(headers, one, (n - 1) as nat);
    }
}

/// Every header is logged in a line of its own, in its order.
pub proof fn every_header_is_logged(headers: Seq<(String, String)>, one: (String, String))
    ensures
        header_lines(Seq::empty(), 0).len() == 0,
        header_lines(headers.push(one), headers.len() + 1) == header_lines(headers, headers.len())
            + one.0@ + ": "@ + one.1@ + "\n"@,
{
    lemma_headers(headers, one, headers.len());
}

/// What is said to providers is written where it was asked for: nowhere, on the screen, or in the
/// file, which is opened first.
pub proof fn what_is_said_is_written_where_asked(path: String)
    ensures
        DebugOutput::Disabled.action() == DebugAction::Skip,
        DebugOutput::Stderr.action() == DebugAction::Print,
        (DebugOutput::File { path, open: false }).action() == DebugAction::OpenToAppend,
        (DebugOutput::File { path, open: true }).action() == DebugAction::Write,
        forall|fault: DebugFault| text::finishes_with(
            #[trigger] (DebugOutput::File { path, open: false }).failure_text(fault),
            path@,
        ),
{
    assert forall|fault: DebugFault| text::finishes_with(
        #[trigger] (DebugOutput::File { path, open: false }).failure_text(fault),
        path@,
    ) by {
        let s = (DebugOutput::File { path, open: false }).failure_text(fault);
        assert(s.subrange(s.len() - path@.len(), s.len() as int) == path@);
    }
}

/// Logs begun at one time under different ids have different names.
pub proof fn logs_have_names_of_their_own(time: Seq<char>, a: u128, b: u128)
    requires
        a != b,
    ensures
        log_name(time, a) != log_name(time, b),
{
    if log_name(time, a) == log_name(time, b) {
        let p = "codecrab-log-"@ + time + "-"@;
        let n = p.len() as int;
        ids::an_id_is_written_in_hexadecimal(a);
        ids::an_id_is_written_in_hexadecimal(b);
        assert(log_name(time, a).subrange(n, n + 36) == ids::id_view(a));
        assert(log_name(time, b).subrange(n, n + 36) == ids::id_view(b));
        ids::id_text_is_injective(a, b);
    }
}

/// An error is logged where nothing failed before: in the open file, and else the file is opened, to be
/// added to where a person named it and as a new one where not.
pub proof fn an_error_is_logged_in_the_file(state: TuiLogState, r: LogAction)
    requires
        call_ensures(TuiLogState::error, (&state,), r),
    ensures
        r == LogAction::Skip <==> state.failure is Some,
        r == LogAction::Write <==> state.failure is None && state.open,
        r == LogAction::OpenNew ==> !state.custom_path && !state.open,
        r == LogAction::OpenToAppend ==> state.custom_path && !state.open,
{
}

} // verus!
