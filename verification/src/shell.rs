//! The shell that runs commands, and the processes that it leaves behind.
use crate::message;
use crate::numbers;
use crate::paths;
use crate::paths::Platform;
use crate::text;
use vstd::prelude::*;
use vstd::string::*;

verus! {

/// The kinds of shells, which take a command in their own way.
#[derive(Clone, Copy, Debug, PartialEq, Eq, Structural)]
pub enum ShellKind {
    PowerShell,
    Cmd,
    Unix,
}

/// A shell.
#[derive(Debug)]
pub struct ShellSpec {
    pub program: String,
    pub kind: ShellKind,
}

/// The kind of a shell, by its name.
pub open spec fn kind_of(platform: Platform, program: Seq<char>) -> ShellKind {
    let name = paths::small_stem(platform, program);
    if name == "pwsh"@ || name == "powershell"@ {
        ShellKind::PowerShell
    } else if name == "cmd"@ || name == "cmd.exe"@ {
        ShellKind::Cmd
    } else {
        ShellKind::Unix
    }
}

/// The kind of a shell, by its name.
pub fn shell_kind(platform: Platform, program: &str) -> (r: ShellKind)
    ensures
        r == kind_of(platform, program@),
{
    let name = paths::lower_stem(platform, program);
    if text::same(&name, "pwsh") || text::same(&name, "powershell") {
        ShellKind::PowerShell
    } else if text::same(&name, "cmd") || text::same(&name, "cmd.exe") {
        ShellKind::Cmd
    } else {
        ShellKind::Unix
    }
}

impl ShellSpec {
    /// The arguments with which the shell runs a command.
    pub fn command(&self, command: &str) -> (r: Vec<String>)
        ensures
            text::views(r@) == (match self.kind {
                ShellKind::PowerShell => seq!["-NoLogo"@, "-Command"@, command@],
                ShellKind::Cmd => seq!["/D"@, "/S"@, "/C"@, command@],
                ShellKind::Unix => seq!["-lic"@, command@],
            }),
    {
        let none = text::no_texts();
        match self.kind {
            ShellKind::PowerShell => text::with(
                text::with(text::with(none, "-NoLogo"), "-Command"),
                command,
            ),
            ShellKind::Cmd => text::with(
                text::with(text::with(text::with(none, "/D"), "/S"), "/C"),
                command,
            ),
            ShellKind::Unix => text::with(text::with(none, "-lic"), command),
        }
    }
}

/// What the system says of shells: the one in the environment and the one of the user, or on Windows
/// those that were found, the one that started this program first, and the command interpreter.
#[derive(Debug)]
pub struct ShellsFound {
    pub environment: Option<String>,
    pub user: Option<String>,
    pub programs: Vec<String>,
    pub interpreter: Option<String>,
}

/// The shell that the system suggests.
pub open spec fn suggested(platform: Platform, found: ShellsFound) -> Option<(Seq<char>, ShellKind)> {
    if platform == Platform::Windows {
        if found.programs@.len() > 0 {
            Some((found.programs@[0]@, kind_of(platform, found.programs@[0]@)))
        } else {
            match found.interpreter {
                Some(p) => Some((p@, ShellKind::Cmd)),
                None => None,
            }
        }
    } else {
        let program = match found.environment {
            Some(p) => if p@.len() > 0 {
                Some(p@)
            } else {
                message::opt_view(found.user)
            },
            None => message::opt_view(found.user),
        };
        Some(
            (
                match program {
                    Some(p) => p,
                    None => "/bin/sh"@,
                },
                ShellKind::Unix,
            ),
        )
    }
}

/// The shell that the system suggests.
pub fn platform_shell(platform: Platform, found: &ShellsFound) -> (r: Result<ShellSpec, String>)
    ensures
        match r {
            Ok(s) => suggested(platform, *found) == Some((s.program@, s.kind)),
            Err(e) => suggested(platform, *found) is None && e@
                == "cannot find pwsh, Windows PowerShell, or ComSpec"@,
        },
{
    match platform {
        Platform::Windows => {
            if found.programs.len() > 0 {
                let program = found.programs[0].clone();
                return Ok(ShellSpec { kind: shell_kind(platform, &program), program });
            }
            match &found.interpreter {
                Some(p) => Ok(ShellSpec { program: p.clone(), kind: ShellKind::Cmd }),
                None => Err("cannot find pwsh, Windows PowerShell, or ComSpec".to_owned()),
            }
        },
        _ => {
            let mut program: Option<String> = None;
            if let Some(p) = &found.environment {
                if !p.as_str().is_empty() {
                    program = Some(p.clone());
                }
            }
            if program.is_none() {
                program = message::copy_text(&found.user);
            }
            let program = match program {
                Some(p) => p,
                None => "/bin/sh".to_owned(),
            };
            Ok(ShellSpec { program, kind: ShellKind::Unix })
        },
    }
}

/// The shell that runs commands: the one that is configured, or else the one that the system
/// suggests.
pub fn detect_shell(configured: Option<&str>, platform: Platform, found: &ShellsFound) -> (r: Result<
    ShellSpec,
    String,
>)
    ensures
        match configured {
            Some(c) => r matches Ok(s) && s.program@ == c@ && s.kind == kind_of(platform, c@),
            None => match r {
                Ok(s) => suggested(platform, *found) == Some((s.program@, s.kind)),
                Err(e) => suggested(platform, *found) is None && e@
                    == "cannot find pwsh, Windows PowerShell, or ComSpec"@,
            },
        },
{
    match configured {
        Some(c) => Ok(ShellSpec { program: c.to_owned(), kind: shell_kind(platform, c) }),
        None => platform_shell(platform, found),
    }
}

// ---------------------------------------------------------------------------
// Processes

/// A process, as the system lists it.
#[derive(Debug)]
pub struct ProcessEntry {
    pub id: u32,
    pub parent: u32,
    pub name: String,
}

/// The position of the first process with an id, at or after `from`.
pub open spec fn process_at(list: Seq<ProcessEntry>, id: u32, from: int) -> int
    decreases list.len() - from,
{
    if from >= list.len() {
        list.len() as int
    } else if list[from].id == id {
        from
    } else {
        process_at(list, id, from + 1)
    }
}

/// The stem of the name of a program, in small letters, where its name is a file name.
pub open spec fn is_windows_shell(name: Seq<char>) -> bool {
    let stem = paths::small_stem(Platform::Windows, name);
    stem == "pwsh"@ || stem == "powershell"@ || stem == "cmd"@
}

/// The name of the shell that started a process, where a shell did.
pub open spec fn parent_shell(list: Seq<ProcessEntry>, current: u32) -> Option<Seq<char>> {
    let own = process_at(list, current, 0);
    if own < list.len() {
        let above = process_at(list, list[own].parent, 0);
        if above < list.len() && is_windows_shell(list[above].name@) {
            Some(list[above].name@)
        } else {
            None
        }
    } else {
        None
    }
}

fn find_process(list: &Vec<ProcessEntry>, id: u32) -> (r: usize)
    ensures
        r as int == process_at(list@, id, 0),
        r <= list@.len(),
{
    let mut i: usize = 0;
    while i < list.len() && list[i].id != id
        invariant
            i <= list@.len(),
            process_at(list@, id, 0) == process_at(list@, id, i as int),
        decreases list@.len() - i,
    {
        i += 1;
    }
    i
}

/// The name of the shell that started a process, where a shell did.
pub fn parent_shell_name(list: &Vec<ProcessEntry>, current: u32) -> (r: Option<String>)
    ensures
        message::opt_view(r) == parent_shell(list@, current),
{
    let own: usize = find_process(list, current);
    if own == list.len() {
        return None;
    }
    let above: usize = find_process(list, list[own].parent);
    if above == list.len() {
        return None;
    }
    let stem = paths::lower_stem(Platform::Windows, &list[above].name);
    if text::same(&stem, "pwsh") || text::same(&stem, "powershell") || text::same(&stem, "cmd") {
        Some(list[above].name.clone())
    } else {
        None
    }
}

/// The process and the session that a line of a listing names.
pub open spec fn listed_process(line: Seq<char>) -> Option<(int, int)> {
    let words = text::words(line);
    if words.len() < 2 {
        None
    } else {
        match (numbers::signed_of(words[0]), numbers::signed_of(words[1])) {
            (Some(process), Some(session)) => if i32::MIN <= process <= i32::MAX && i32::MIN
                <= session <= i32::MAX {
                Some((process, session))
            } else {
                None
            },
            _ => None,
        }
    }
}

/// The processes of a session in the first `n` lines of a listing, but for one.
pub open spec fn session_members(lines: Seq<Seq<char>>, session: i32, current: i32, n: nat) -> Seq<i32>
    decreases n,
{
    if n == 0 {
        Seq::empty()
    } else {
        let before = session_members(lines, session, current, (n - 1) as nat);
        match listed_process(lines[n - 1]) {
            Some((p, s)) => if s == session && p != current {
                before.push(p as i32)
            } else {
                before
            },
            None => before,
        }
    }
}

fn read_process(line: &str) -> (r: Option<(i32, i32)>)
    ensures
        match r {
            Some((p, s)) => listed_process(line@) == Some((p as int, s as int)),
            None => listed_process(line@) is None,
        },
{
    let words = text::words_of(line);
    let ghost views = text::views(words@);
    if words.len() < 2 {
        return None;
    }
    assert(views[0] == words@[0]@);
    assert(views[1] == words@[1]@);
    match (numbers::parse_i32(&words[0]), numbers::parse_i32(&words[1])) {
        (Some(p), Some(s)) => Some((p, s)),
        _ => None,
    }
}

/// The processes of a session in a listing, but for one: each line names a process and its session.
pub fn session_processes(output: &str, session: i32, current: i32) -> (r: Vec<i32>)
    ensures
        r@ == session_members(
            text::lines(output@),
            session,
            current,
            text::lines(output@).len(),
        ),
{
    let lines = text::lines_of(output);
    let ghost views = text::views(lines@);
    let mut r: Vec<i32> = Vec::new();
    let mut i: usize = 0;
    while i < lines.len()
        invariant
            i <= lines@.len(),
            views == text::views(lines@),
            r@ == session_members(views, session, current, i as nat),
        decreases lines@.len() - i,
    {
        assert(views[i as int] == lines@[i as int]@);
        if let Some((p, s)) = read_process(&lines[i]) {
            if s == session && p != current {
                r.push(p);
            }
        }
        i += 1;
    }
    assert(views.len() == lines@.len());
    r
}

/// The processes, and those of the first `n` others that are not among them.
pub open spec fn with_late(processes: Seq<i32>, late: Seq<i32>, n: nat) -> Seq<i32>
    decreases n,
{
    if n == 0 {
        processes
    } else {
        let before = with_late(processes, late, (n - 1) as nat);
        if before.contains(late[n - 1]) {
            before
        } else {
            before.push(late[n - 1])
        }
    }
}

fn holds(list: &Vec<i32>, x: i32) -> (r: bool)
    ensures
        r == list@.contains(x),
{
    let mut i: usize = 0;
    while i < list.len()
        invariant
            i <= list@.len(),
            forall|j: int| 0 <= j < i ==> list@[j] != x,
        decreases list@.len() - i,
    {
        if list[i] == x {
            return true;
        }
        i += 1;
    }
    false
}

/// The processes to be ended, in the order in which they are found: those that were there when the
/// first were stopped follow them. They are ended from the last to the first.
pub fn processes_to_end(processes: Vec<i32>, late: &Vec<i32>) -> (r: Vec<i32>)
    ensures
        r@ == with_late(processes@, late@, late@.len()),
{
    let mut r = processes;
    let mut i: usize = 0;
    while i < late.len()
        invariant
            i <= late@.len(),
            r@ == with_late(processes@, late@, i as nat),
        decreases late@.len() - i,
    {
        if !holds(&r, late[i]) {
            r.push(late[i]);
        }
        i += 1;
    }
    r
}

/// The first of the places from `i` on in which a program is.
pub open spec fn found_in(
    platform: Platform,
    directories: Seq<(String, bool)>,
    name: Seq<char>,
    i: int,
) -> Option<Seq<char>>
    decreases directories.len() - i,
{
    if i >= directories.len() {
        None
    } else if directories[i].1 {
        Some(paths::joined(platform, directories[i].0@, name))
    } else {
        found_in(platform, directories, name, i + 1)
    }
}

/// Where a program is: where its name says, if that is a path to a file, and else in the first of the
/// directories that hold a file of its name.
pub fn find_executable(
    platform: Platform,
    name: &str,
    is_file: bool,
    directories: &Vec<(String, bool)>,
) -> (r: Option<String>)
    ensures
        message::opt_view(r) == (if is_file && paths::says_where(platform, name@) {
            Some(name@)
        } else {
            found_in(platform, directories@, name@, 0)
        }),
{
    if is_file && paths::names_a_place(platform, name) {
        return Some(name.to_owned());
    }
    let mut i: usize = 0;
    while i < directories.len()
        invariant
            i <= directories@.len(),
            !(is_file && paths::says_where(platform, name@)),
            found_in(platform, directories@, name@, 0) == found_in(
                platform,
                directories@,
                name@,
                i as int,
            ),
        decreases directories@.len() - i,
    {
        if directories[i].1 {
            return Some(paths::join(platform, &directories[i].0, name));
        }
        i += 1;
    }
    None
}

// ---------------------------------------------------------------------------
// Laws
/// A shell takes commands as its name says: as PowerShell, as the command interpreter, and else as on
/// Unix.
pub proof fn a_shell_is_known_by_its_name(platform: Platform, program: Seq<char>)
    ensures
        ({
            let name = paths::small_stem(platform, program);
            &&& kind_of(platform, program) == ShellKind::PowerShell <==> name == "pwsh"@ || name
                == "powershell"@
            &&& kind_of(platform, program) == ShellKind::Cmd <==> name == "cmd"@ || name
                == "cmd.exe"@
        }),
{
    reveal_strlit("pwsh");
    reveal_strlit("powershell");
    reveal_strlit("cmd");
    reveal_strlit("cmd.exe");
    assert("pwsh"@.len() == 4 && "powershell"@.len() == 10 && "cmd"@.len() == 3 && "cmd.exe"@.len()
        == 7);
}

/// On Windows the first shell that was found is suggested, and else the interpreter; elsewhere the one
/// of the environment, that of the user, or the one that is always there.
pub proof fn the_shell_at_hand_is_suggested(platform: Platform, found: ShellsFound)
    ensures
        platform == Platform::Windows && found.programs@.len() > 0 ==> suggested(platform, found)
            == Some((found.programs@[0]@, kind_of(platform, found.programs@[0]@))),
        platform == Platform::Windows && found.programs@.len() == 0 ==> (suggested(
            platform,
            found,
        ) is None <==> found.interpreter is None) && (found.interpreter matches Some(p)
            ==> suggested(platform, found) == Some((p@, ShellKind::Cmd))),
        platform != Platform::Windows ==> (found.environment matches Some(p) ==> p@.len() > 0
            ==> suggested(platform, found) == Some((p@, ShellKind::Unix))),
        platform != Platform::Windows && found.environment is None ==> (found.user matches Some(p)
            ==> suggested(platform, found) == Some((p@, ShellKind::Unix))),
        platform != Platform::Windows && found.environment is None && found.user is None
            ==> suggested(platform, found) == Some(("/bin/sh"@, ShellKind::Unix)),
{
}

proof fn lemma_process_at(list: Seq<ProcessEntry>, id: u32, from: int, i: int)
    requires
        0 <= from <= i < list.len(),
        list[i].id == id,
        forall|j: int| from <= j < i ==> (#[trigger] list[j]).id != id,
    ensures
        process_at(list, id, from) == i,
    decreases i - from,
{
    if from < i {
        assert(list[from].id != id);
        lemma_process_at(list, id, from + 1, i);
    }
}

/// The shell that started a process is its parent, where that is one.
pub proof fn the_shell_above_a_process_is_its_parent(list: Seq<ProcessEntry>, own: int, above: int)
    requires
        0 <= own < list.len(),
        0 <= above < list.len(),
        forall|i: int, j: int|
            0 <= i < j < list.len() ==> (#[trigger] list[i]).id != (#[trigger] list[j]).id,
        list[own].parent == list[above].id,
    ensures
        ({
            let stem = paths::small_stem(Platform::Windows, list[above].name@);
            parent_shell(list, list[own].id) == (if stem == "pwsh"@ || stem == "powershell"@ || stem
                == "cmd"@ {
                Some(list[above].name@)
            } else {
                None
            })
        }),
{
    lemma_process_at(list, list[own].id, 0, own);
    lemma_process_at(list, list[above].id, 0, above);
}

proof fn lemma_members(lines: Seq<Seq<char>>, line: Seq<char>, session: i32, current: i32, n: nat)
    requires
        n <= lines.len(),
    ensures
        session_members(lines.push(line), session, current, n) == session_members(
            lines,
            session,
            current,
            n,
        ),
    decreases n,
{
    if n > 0 {
        lemma_members(lines, line, session, current, (n - 1) as nat);
    }
}

/// A line of a listing adds the process that it names exactly where it names the session and another
/// process than the current one.
pub proof fn processes_of_the_session_are_found(
    lines: Seq<Seq<char>>,
    line: Seq<char>,
    session: i32,
    current: i32,
)
    ensures
        ({
            let before = session_members(lines, session, current, lines.len());
            let now = session_members(lines.push(line), session, current, lines.len() + 1);
            match listed_process(line) {
                Some((p, s)) => if s == session && p != current {
                    now == before.push(p as i32)
                } else {
                    now == before
                },
                None => now == before,
            }
        }),
        session_members(Seq::empty(), session, current, 0).len() == 0,
{
    lemma_members(lines, line, session, current, lines.len());
}

/// A line names a process and a session by its first two words, where both are numbers of that kind.
pub proof fn a_line_names_a_process_and_a_session(line: Seq<char>, process: int, session: int)
    requires
        i32::MIN <= process <= i32::MAX,
        i32::MIN <= session <= i32::MAX,
    ensures
        listed_process(line) == Some((process, session)) <==> text::words(line).len() >= 2
            && numbers::signed_of(text::words(line)[0]) == Some(process) && numbers::signed_of(
            text::words(line)[1],
        ) == Some(session),
{
}

/// All processes are ended, those found first and those found late, and none twice for being found
/// again.
pub proof fn all_processes_are_ended(processes: Seq<i32>, late: Seq<i32>, n: nat, p: i32)
    requires
        n <= late.len(),
    ensures
        with_late(processes, late, n).contains(p) <==> processes.contains(p) || late.take(
            n as int,
        ).contains(p),
        processes.is_prefix_of(with_late(processes, late, n)),
        processes.no_duplicates() ==> with_late(processes, late, n).no_duplicates(),
    decreases n,
{
    if n > 0 {
        let m = (n - 1) as nat;
        let before = with_late(processes, late, m);
        let now = with_late(processes, late, n);
        let one = late[n - 1];
        all_processes_are_ended(processes, late, m, p);
        all_processes_are_ended(processes, late, m, one);
        assert(late.take(n as int) == late.take(m as int).push(one));
        let a = late.take(m as int);
        assert(a.push(one).contains(p) <==> a.contains(p) || p == one) by {
            if a.contains(p) {
                let k = choose|k: int| 0 <= k < a.len() && a[k] == p;
                assert(a.push(one)[k] == p);
            }
            assert(a.push(one)[a.len() as int] == one);
        }
        if !before.contains(one) {
            assert(now == before.push(one));
            if before.contains(p) {
                let k = choose|k: int| 0 <= k < before.len() && before[k] == p;
                assert(now[k] == p);
            }
            assert(now[before.len() as int] == one);
        }
    } else {
        assert(late.take(0).len() == 0);
    }
}

/// A program is in the first directory that holds a file of its name, and nowhere where none does.
pub proof fn a_program_is_in_the_first_place_that_holds_it(
    platform: Platform,
    directories: Seq<(String, bool)>,
    name: Seq<char>,
    from: int,
    i: int,
)
    requires
        0 <= from <= i <= directories.len(),
        i < directories.len() ==> directories[i].1,
        forall|j: int| from <= j < i ==> !(#[trigger] directories[j]).1,
    ensures
        i < directories.len() ==> found_in(platform, directories, name, from) == Some(
            paths::joined(platform, directories[i].0@, name),
        ),
        i == directories.len() ==> found_in(platform, directories, name, from) is None,
    decreases i - from,
{
    if from < i {
        assert(!directories[from].1);
        a_program_is_in_the_first_place_that_holds_it(platform, directories, name, from + 1, i);
    }
}

/// The command stands last in what a shell is started with, whole.
pub proof fn a_shell_gets_the_whole_command(shell: ShellSpec, command: &str, r: Vec<String>)
    requires
        call_ensures(ShellSpec::command, (&shell, command), r),
    ensures
        r@.len() > 1,
        r@.last()@ == command@,
        shell.kind == ShellKind::Unix ==> r@.len() == 2 && r@[0]@ == "-lic"@,
        shell.kind == ShellKind::PowerShell ==> r@[r@.len() - 2]@ == "-Command"@,
        shell.kind == ShellKind::Cmd ==> r@[r@.len() - 2]@ == "/C"@,
{
    let v = text::views(r@);
    assert(v.len() == r@.len());
    assert(v[v.len() - 1] == r@.last()@);
    assert(v[0] == r@[0]@);
    assert(v[v.len() - 2] == r@[r@.len() - 2]@);
}

/// The configured shell is used, and its kind told by its name.
pub proof fn the_configured_shell_is_used(
    configured: Option<&str>,
    platform: Platform,
    found: ShellsFound,
    r: Result<ShellSpec, String>,
)
    requires
        call_ensures(detect_shell, (configured, platform, &found), r),
    ensures
        configured matches Some(c) ==> (r matches Ok(s) && s.program@ == c@ && s.kind == kind_of(
            platform,
            c@,
        )),
        platform != Platform::Windows ==> r is Ok,
        r is Err ==> configured is None && found.programs@.len() == 0 && found.interpreter is None,
{
}

} // verus!
