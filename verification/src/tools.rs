//! The tools that a model may use on files and commands.
use crate::json;
use crate::json::{Json, JsonNumber, JsonView};
use crate::message;
use crate::paths;
use crate::paths::Platform;
use crate::payload;
use crate::schema;
use crate::schema::{Property, ToolSpec, ToolView};
use crate::text;
use vstd::prelude::*;
use vstd::string::*;

verus! {

// ---------------------------------------------------------------------------
// What the tools are called

/// The tools that read files.
pub open spec fn reading_tools() -> Seq<ToolView> {
    seq![
        ToolView {
            name: "list_files"@,
            description:
                "List files and directories. Relative paths start at the working directory; parent and absolute paths are allowed."@,
            properties: seq![
                ("max_depth"@, Property::Integer { minimum: 1, maximum: Some(8) }),
                (
                    "path"@,
                    Property::DescribedText("Directory path, defaults to the working directory"),
                ),
            ],
            required: Seq::empty(),
        },
        ToolView {
            name: "read_file"@,
            description: "Read a UTF-8 text file with line numbers."@,
            properties: seq![
                ("end_line"@, Property::Integer { minimum: 1, maximum: None }),
                ("path"@, Property::Text),
                ("start_line"@, Property::Integer { minimum: 1, maximum: None }),
            ],
            required: seq!["path"@],
        },
        ToolView {
            name: "search"@,
            description:
                "Search text recursively in files. Relative paths start at the working directory; parent and absolute paths are allowed."@,
            properties: seq![
                (
                    "path"@,
                    Property::DescribedText(
                        "File or directory path, defaults to the working directory",
                    ),
                ),
                ("query"@, Property::Text),
            ],
            required: seq!["query"@],
        },
    ]
}

/// The tools that change files and run commands.
pub open spec fn changing_tools() -> Seq<ToolView> {
    seq![
        ToolView {
            name: "write_file"@,
            description: "Create or completely overwrite a UTF-8 text file."@,
            properties: seq![("content"@, Property::Text), ("path"@, Property::Text)],
            required: seq!["path"@, "content"@],
        },
        ToolView {
            name: "replace_in_file"@,
            description: "Replace one exact, unique string in a UTF-8 file."@,
            properties: seq![
                ("new"@, Property::Text),
                ("old"@, Property::Text),
                ("path"@, Property::Text),
            ],
            required: seq!["path"@, "old"@, "new"@],
        },
        ToolView {
            name: "shell"@,
            description:
                "Run a command in a managed PTY. A command still running after five seconds returns a reusable terminal ID."@,
            properties: seq![("command"@, Property::Text)],
            required: seq!["command"@],
        },
        ToolView {
            name: "shell_noninteractive"@,
            description: "Run a non-interactive command with separate stdout and stderr."@,
            properties: seq![
                ("command"@, Property::Text),
                ("timeout_seconds"@, Property::Integer { minimum: 1, maximum: Some(300) }),
            ],
            required: seq!["command"@],
        },
    ]
}

/// The tools that work with terminals.
pub open spec fn terminal_tools() -> Seq<ToolView> {
    seq![
        ToolView {
            name: "terminal_input"@,
            description:
                "Send ordered semantic actions to a terminal, then observe it. Actions: text {text}; paste {text}; key {key, modifiers?}; mouse {action, button, row, column, modifiers?}; resize {columns, rows}. Key names include Enter, ArrowUp, Escape, F1, and Character:a."@,
            properties: seq![("actions"@, Property::Objects), ("terminal_id"@, Property::Text)],
            required: seq!["terminal_id"@, "actions"@],
        },
        ToolView {
            name: "terminal_read"@,
            description: "Observe a managed terminal without sending input."@,
            properties: seq![("terminal_id"@, Property::Text)],
            required: seq!["terminal_id"@],
        },
        ToolView {
            name: "terminal_close"@,
            description: "Force-close and reap a managed terminal process tree."@,
            properties: seq![("terminal_id"@, Property::Text)],
            required: seq!["terminal_id"@],
        },
        ToolView {
            name: "terminal_list"@,
            description: "List all managed terminals registered to this conversation."@,
            properties: Seq::empty(),
            required: Seq::empty(),
        },
    ]
}

/// The tools that a model may use.
pub open spec fn all_tools() -> Seq<ToolView> {
    reading_tools() + changing_tools() + terminal_tools()
}

fn list_files_tool() -> (t: ToolSpec)
    ensures
        t@ == reading_tools()[0],
{
    let t = ToolSpec {
        name: "list_files",
        description: "List files and directories. Relative paths start at the working directory; parent and absolute paths are allowed.",
        properties: vec![
            ("max_depth", Property::Integer { minimum: 1, maximum: Some(8) }),
            ("path", Property::DescribedText("Directory path, defaults to the working directory")),
        ],
        required: Vec::new(),
    };
    assert(t@ == reading_tools()[0]);
    t
}

fn read_file_tool() -> (t: ToolSpec)
    ensures
        t@ == reading_tools()[1],
{
    let t = ToolSpec {
        name: "read_file",
        description: "Read a UTF-8 text file with line numbers.",
        properties: vec![
            ("end_line", Property::Integer { minimum: 1, maximum: None }),
            ("path", Property::Text),
            ("start_line", Property::Integer { minimum: 1, maximum: None }),
        ],
        required: vec!["path"],
    };
    assert(t@ == reading_tools()[1]);
    t
}

fn search_tool() -> (t: ToolSpec)
    ensures
        t@ == reading_tools()[2],
{
    let t = ToolSpec {
        name: "search",
        description: "Search text recursively in files. Relative paths start at the working directory; parent and absolute paths are allowed.",
        properties: vec![
            (
                "path",
                Property::DescribedText("File or directory path, defaults to the working directory"),
            ),
            ("query", Property::Text),
        ],
        required: vec!["query"],
    };
    assert(t@ == reading_tools()[2]);
    t
}

fn write_file_tool() -> (t: ToolSpec)
    ensures
        t@ == changing_tools()[0],
{
    let t = ToolSpec {
        name: "write_file",
        description: "Create or completely overwrite a UTF-8 text file.",
        properties: vec![("content", Property::Text), ("path", Property::Text)],
        required: vec!["path", "content"],
    };
    assert(t@ == changing_tools()[0]);
    t
}

fn replace_in_file_tool() -> (t: ToolSpec)
    ensures
        t@ == changing_tools()[1],
{
    let t = ToolSpec {
        name: "replace_in_file",
        description: "Replace one exact, unique string in a UTF-8 file.",
        properties: vec![
            ("new", Property::Text),
            ("old", Property::Text),
            ("path", Property::Text),
        ],
        required: vec!["path", "old", "new"],
    };
    assert(t@ == changing_tools()[1]);
    t
}

fn shell_tool() -> (t: ToolSpec)
    ensures
        t@ == changing_tools()[2],
{
    let t = ToolSpec {
        name: "shell",
        description: "Run a command in a managed PTY. A command still running after five seconds returns a reusable terminal ID.",
        properties: vec![("command", Property::Text)],
        required: vec!["command"],
    };
    assert(t@ == changing_tools()[2]);
    t
}

fn shell_noninteractive_tool() -> (t: ToolSpec)
    ensures
        t@ == changing_tools()[3],
{
    let t = ToolSpec {
        name: "shell_noninteractive",
        description: "Run a non-interactive command with separate stdout and stderr.",
        properties: vec![
            ("command", Property::Text),
            ("timeout_seconds", Property::Integer { minimum: 1, maximum: Some(300) }),
        ],
        required: vec!["command"],
    };
    assert(t@ == changing_tools()[3]);
    t
}

fn terminal_input_tool() -> (t: ToolSpec)
    ensures
        t@ == terminal_tools()[0],
{
    let t = ToolSpec {
        name: "terminal_input",
        description: "Send ordered semantic actions to a terminal, then observe it. Actions: text {text}; paste {text}; key {key, modifiers?}; mouse {action, button, row, column, modifiers?}; resize {columns, rows}. Key names include Enter, ArrowUp, Escape, F1, and Character:a.",
        properties: vec![("actions", Property::Objects), ("terminal_id", Property::Text)],
        required: vec!["terminal_id", "actions"],
    };
    assert(t@ == terminal_tools()[0]);
    t
}

fn terminal_read_tool() -> (t: ToolSpec)
    ensures
        t@ == terminal_tools()[1],
{
    let t = ToolSpec {
        name: "terminal_read",
        description: "Observe a managed terminal without sending input.",
        properties: vec![("terminal_id", Property::Text)],
        required: vec!["terminal_id"],
    };
    assert(t@ == terminal_tools()[1]);
    t
}

fn terminal_close_tool() -> (t: ToolSpec)
    ensures
        t@ == terminal_tools()[2],
{
    let t = ToolSpec {
        name: "terminal_close",
        description: "Force-close and reap a managed terminal process tree.",
        properties: vec![("terminal_id", Property::Text)],
        required: vec!["terminal_id"],
    };
    assert(t@ == terminal_tools()[2]);
    t
}

fn terminal_list_tool() -> (t: ToolSpec)
    ensures
        t@ == terminal_tools()[3],
{
    let t = ToolSpec {
        name: "terminal_list",
        description: "List all managed terminals registered to this conversation.",
        properties: Vec::new(),
        required: Vec::new(),
    };
    assert(t@ == terminal_tools()[3]);
    t
}

/// The descriptions of the tools that a model may use, with those of others behind them.
pub fn definitions(others: Vec<Json>) -> (r: Vec<Json>)
    ensures
        json::item_views(r@) == schema::tool_values(all_tools()) + json::item_views(others@),
{
    let mut tools: Vec<ToolSpec> = Vec::new();
    tools.push(list_files_tool());
    tools.push(read_file_tool());
    tools.push(search_tool());
    tools.push(write_file_tool());
    tools.push(replace_in_file_tool());
    tools.push(shell_tool());
    tools.push(shell_noninteractive_tool());
    tools.push(terminal_input_tool());
    tools.push(terminal_read_tool());
    tools.push(terminal_close_tool());
    tools.push(terminal_list_tool());
    assert(schema::tool_views(tools@) == all_tools());
    let mut r = schema::tools_json(&tools);
    let ghost own = json::item_views(r@);
    let ghost more = json::item_views(others@);
    let mut rest = others;
    let mut reversed: Vec<Json> = Vec::new();
    proof {
        json::lemma_item_views(rest@);
    }
    while rest.len() > 0
        invariant
            rest@.len() + reversed@.len() == more.len(),
            forall|i: int|
                0 <= i < rest@.len() ==> json::json_view(#[trigger] rest@[i]) == more[i],
            forall|i: int|
                0 <= i < reversed@.len() ==> json::json_view(#[trigger] reversed@[i])
                    == more[more.len() - 1 - i],
        decreases rest@.len(),
    {
        let last = rest.pop().unwrap();
        reversed.push(last);
    }
    assert(own + more.take(0) == own);
    while reversed.len() > 0
        invariant
            reversed@.len() <= more.len(),
            forall|i: int|
                0 <= i < reversed@.len() ==> json::json_view(#[trigger] reversed@[i])
                    == more[more.len() - 1 - i],
            json::item_views(r@) == own + more.take(more.len() - reversed@.len()),
        decreases reversed@.len(),
    {
        let ghost k = more.len() - reversed@.len();
        let item = reversed.pop().unwrap();
        assert(item@ == more[k]);
        r = json::with_item(r, item);
        assert(own + more.take(k + 1) == (own + more.take(k)).push(more[k]));
    }
    assert(more.take(more.len() as int) == more);
    r
}

/// A tool that a model asks for.
#[derive(Clone, Copy, Debug, PartialEq, Eq, Structural)]
pub enum ToolName {
    ListFiles,
    ReadFile,
    Search,
    WriteFile,
    ReplaceInFile,
    Shell,
    ShellNoninteractive,
    TerminalInput,
    TerminalRead,
    TerminalClose,
    TerminalList,
    Session,
}

/// The tool of a name; other sessions are worked with where that is possible.
pub open spec fn tool_named(name: Seq<char>, controls_sessions: bool) -> Result<ToolName, Seq<char>> {
    if name == "list_files"@ {
        Ok(ToolName::ListFiles)
    } else if name == "read_file"@ {
        Ok(ToolName::ReadFile)
    } else if name == "search"@ {
        Ok(ToolName::Search)
    } else if name == "write_file"@ {
        Ok(ToolName::WriteFile)
    } else if name == "replace_in_file"@ {
        Ok(ToolName::ReplaceInFile)
    } else if name == "shell"@ {
        Ok(ToolName::Shell)
    } else if name == "shell_noninteractive"@ {
        Ok(ToolName::ShellNoninteractive)
    } else if name == "terminal_input"@ {
        Ok(ToolName::TerminalInput)
    } else if name == "terminal_read"@ {
        Ok(ToolName::TerminalRead)
    } else if name == "terminal_close"@ {
        Ok(ToolName::TerminalClose)
    } else if name == "terminal_list"@ {
        Ok(ToolName::TerminalList)
    } else if text::begins_with(name, "session_"@) {
        if controls_sessions {
            Ok(ToolName::Session)
        } else {
            Err("session control is unavailable"@)
        }
    } else {
        Err("unknown tool "@ + text::quoted(name))
    }
}

/// The tool of a name.
pub fn find_tool(name: &str, controls_sessions: bool) -> (r: Result<ToolName, String>)
    ensures
        match r {
            Ok(t) => tool_named(name@, controls_sessions) == Ok::<ToolName, Seq<char>>(t),
            Err(e) => tool_named(name@, controls_sessions) == Err::<ToolName, Seq<char>>(e@),
        },
{
    if text::same(name, "list_files") {
        Ok(ToolName::ListFiles)
    } else if text::same(name, "read_file") {
        Ok(ToolName::ReadFile)
    } else if text::same(name, "search") {
        Ok(ToolName::Search)
    } else if text::same(name, "write_file") {
        Ok(ToolName::WriteFile)
    } else if text::same(name, "replace_in_file") {
        Ok(ToolName::ReplaceInFile)
    } else if text::same(name, "shell") {
        Ok(ToolName::Shell)
    } else if text::same(name, "shell_noninteractive") {
        Ok(ToolName::ShellNoninteractive)
    } else if text::same(name, "terminal_input") {
        Ok(ToolName::TerminalInput)
    } else if text::same(name, "terminal_read") {
        Ok(ToolName::TerminalRead)
    } else if text::same(name, "terminal_close") {
        Ok(ToolName::TerminalClose)
    } else if text::same(name, "terminal_list") {
        Ok(ToolName::TerminalList)
    } else if text::starts_with(name, "session_") {
        if controls_sessions {
            Ok(ToolName::Session)
        } else {
            Err("session control is unavailable".to_owned())
        }
    } else {
        Err(text::cat2("unknown tool ", &text::quote(name)))
    }
}

/// The arguments of a tool, and what a person is told where they are not JSON.
pub fn parse_arguments(args: &str) -> (r: Result<Json, String>)
    ensures
        match r {
            Ok(j) => json::read_json(args@) == Ok::<JsonView, Seq<char>>(j@),
            Err(e) => json::read_json(args@) matches Err(m) && e@ == "invalid arguments: "@ + m,
        },
{
    match json::parse_json(args) {
        Ok(j) => Ok(j),
        Err(m) => Err(text::cat2("invalid arguments: ", &m)),
    }
}

/// What is answered of a file that was written.
pub open spec fn written_fields(path: Seq<char>, content: Seq<char>) -> payload::Fields {
    seq![
        ("bytes"@, schema::integer(byte_len(content, content.len()) as u64)),
        ("path"@, JsonView::Text(path)),
    ]
}

/// What is answered of a file that was written: its path, and how many bytes it has.
pub fn write_file(path: &str, content: &str) -> (r: Json)
    requires
        byte_len(content@, content@.len()) <= usize::MAX,
    ensures
        r@ == JsonView::Object(written_fields(path@, content@)),
{
    let v = text::chars_of(content);
    let mut bytes: usize = 0;
    let mut i: usize = 0;
    while i < v.len()
        invariant
            i <= v@.len(),
            v@ == content@,
            bytes == byte_len(content@, i as nat),
            byte_len(content@, content@.len()) <= usize::MAX,
        decreases v@.len() - i,
    {
        proof {
            lemma_byte_len_grows(content@, (i + 1) as nat, content@.len());
        }
        bytes = bytes + width_of(v[i]);
        i += 1;
    }
    let f = json::with_field(
        json::no_fields(),
        "bytes",
        Json::Number(JsonNumber::Unsigned(bytes as u64)),
    );
    let f = json::with_field(f, "path", json::text_value(path));
    assert(json::field_views(f@) == written_fields(path@, content@));
    Json::Object(f)
}

// ---------------------------------------------------------------------------
// Long texts

/// How many bytes a character takes in UTF-8.
pub open spec fn byte_width(c: char) -> nat {
    if (c as int) < 0x80 {
        1
    } else if (c as int) < 0x800 {
        2
    } else if (c as int) < 0x10000 {
        3
    } else {
        4
    }
}

/// How many bytes the first `n` characters take in UTF-8.
pub open spec fn byte_len(s: Seq<char>, n: nat) -> nat
    decreases n,
{
    if n == 0 {
        0
    } else {
        byte_len(s, (n - 1) as nat) + byte_width(s[n - 1])
    }
}

/// How many characters from the `k`-th on stay within `max` bytes, and those before it.
pub open spec fn fitting(s: Seq<char>, max: nat, k: nat) -> nat
    decreases s.len() - k,
{
    if k >= s.len() || byte_len(s, k + 1) > max {
        k
    } else {
        fitting(s, max, k + 1)
    }
}

/// A text that takes at most `max` bytes, or the beginning of one that takes more.
pub open spec fn truncated(s: Seq<char>, max: nat) -> Seq<char> {
    if byte_len(s, s.len()) <= max {
        s
    } else {
        s.take(fitting(s, max, 0) as int) + "\n… output truncated …"@
    }
}

fn width_of(c: char) -> (n: usize)
    ensures
        n == byte_width(c),
{
    let code = c as u32;
    if code < 0x80 {
        1
    } else if code < 0x800 {
        2
    } else if code < 0x10000 {
        3
    } else {
        4
    }
}

proof fn lemma_byte_len_grows(s: Seq<char>, a: nat, b: nat)
    requires
        a <= b,
    ensures
        byte_len(s, a) <= byte_len(s, b),
    decreases b,
{
    if a < b {
        lemma_byte_len_grows(s, a, (b - 1) as nat);
    }
}

/// A text that takes at most `max` bytes, or the beginning of one that takes more.
pub fn truncate(value: String, max: usize) -> (s: String)
    ensures
        s@ == truncated(value@, max as nat),
{
    let v = text::chars_of(&value);
    let mut used: usize = 0;
    let mut k: usize = 0;
    while k < v.len()
        invariant
            k <= v@.len(),
            v@ == value@,
            used == byte_len(value@, k as nat),
            used <= max,
            fitting(value@, max as nat, 0) == fitting(value@, max as nat, k as nat),
        decreases v@.len() - k,
    {
        let width: usize = width_of(v[k]);
        assert(byte_len(value@, (k + 1) as nat) == used + width);
        if width > max - used {
            proof {
                lemma_byte_len_grows(value@, (k + 1) as nat, value@.len());
            }
            let head = text::text_of_range(&v, 0, k);
            assert(head@ == value@.take(k as int));
            return text::cat2(&head, "\n… output truncated …");
        }
        used += width;
        k += 1;
    }
    value
}

// ---------------------------------------------------------------------------
// Listing files

/// Something found in a directory.
#[derive(Debug)]
pub struct WalkEntry {
    pub path: String,
    pub is_directory: bool,
}

/// How deep files are listed.
pub open spec fn depth_of(args: JsonView) -> u64 {
    match args.unsigned_field("max_depth"@) {
        Some(d) => if d < 1 {
            1
        } else if d > 8 {
            8
        } else {
            d
        },
        None => 3,
    }
}

/// How deep files are listed.
pub fn listing_depth(args: &Json) -> (n: u64)
    ensures
        n == depth_of(args@),
{
    match args.get_u64("max_depth") {
        Some(d) => if d < 1 {
            1
        } else if d > 8 {
            8
        } else {
            d
        },
        None => 3,
    }
}

/// How an entry is listed.
pub open spec fn listed(platform: Platform, root: Seq<char>, e: WalkEntry) -> Seq<char> {
    paths::with_slashes(
        if e.is_directory {
            paths::relative_to(platform, root, e.path@).push('/')
        } else {
            paths::relative_to(platform, root, e.path@)
        },
    )
}

/// How the first `n` entries are listed, but for the directory itself.
pub open spec fn listed_entries(
    platform: Platform,
    root: Seq<char>,
    path: Seq<char>,
    found: Seq<WalkEntry>,
    n: nat,
) -> Seq<Seq<char>>
    decreases n,
{
    if n == 0 {
        Seq::empty()
    } else {
        let before = listed_entries(platform, root, path, found, (n - 1) as nat);
        if found[n - 1].path@ == path {
            before
        } else {
            before.push(listed(platform, root, found[n - 1]))
        }
    }
}

/// How many entries are looked at.
pub const MAX_LISTED: usize = 1000;

/// How the entries of a directory are listed, up to a limit, and whether the limit was reached.
pub fn list_files(platform: Platform, root: &str, path: &str, found: &Vec<WalkEntry>) -> (r: (
    Vec<String>,
    bool,
))
    ensures
        text::views(r.0@) == listed_entries(
            platform,
            root@,
            path@,
            found@,
            if found@.len() < MAX_LISTED {
                found@.len()
            } else {
                MAX_LISTED as nat
            },
        ),
        r.1 == (r.0@.len() == MAX_LISTED),
{
    let mut r = text::no_texts();
    let mut i: usize = 0;
    while i < found.len() && i < MAX_LISTED
        invariant
            i <= found@.len(),
            i <= MAX_LISTED,
            text::views(r@) == listed_entries(platform, root@, path@, found@, i as nat),
        decreases found@.len() - i,
    {
        if !text::same(&found[i].path, path) {
            let mut shown = paths::relative(platform, root, &found[i].path);
            if found[i].is_directory {
                shown.push('/');
            }
            r = text::with(r, &paths::slashed(&shown));
        }
        i += 1;
    }
    let full = r.len() == MAX_LISTED;
    (r, full)
}

// ---------------------------------------------------------------------------
// Reading files

/// A part of a file.
#[derive(Debug)]
pub struct Excerpt {
    pub content: String,
    pub total_lines: usize,
    pub start_line: u64,
    pub end_line: u64,
}

/// A number, moved to the right to six places.
pub open spec fn six_places(n: nat) -> Seq<char> {
    let d = text::decimal(n);
    if d.len() >= 6 {
        d
    } else {
        Seq::new((6 - d.len()) as nat, |i: int| ' ') + d
    }
}

fn moved_right(n: u64) -> (s: String)
    ensures
        s@ == six_places(n as nat),
{
    let digits = text::to_decimal(n);
    let length: usize = digits.as_str().unicode_len();
    let mut s = String::new();
    let mut i: usize = length;
    while i < 6
        invariant
            length <= i,
            i <= 6 || i == length,
            s@.len() == i - length,
            forall|j: int| 0 <= j < s@.len() ==> s@[j] == ' ',
        decreases 6 - i,
    {
        s.push(' ');
        i += 1;
    }
    let r = text::cat2(&s, &digits);
    assert(r@ == six_places(n as nat));
    r
}

/// A line with its number.
pub open spec fn numbered(n: nat, line: Seq<char>) -> Seq<char> {
    six_places(n) + " | "@ + line
}

/// The first line that is asked for.
pub open spec fn start_of(args: JsonView) -> u64 {
    match args.unsigned_field("start_line"@) {
        Some(n) => if n < 1 {
            1
        } else {
            n
        },
        None => 1,
    }
}

/// The last line that is asked for.
pub open spec fn end_of(args: JsonView) -> u64 {
    match args.unsigned_field("end_line"@) {
        Some(n) => n,
        None => if start_of(args) > u64::MAX - 399 {
            u64::MAX
        } else {
            (start_of(args) + 399) as u64
        },
    }
}

/// How many lines are asked for; at least one.
pub open spec fn count_of(start: u64, end: u64) -> int {
    if end < start {
        1
    } else if end - start == u64::MAX {
        u64::MAX as int
    } else {
        end - start + 1
    }
}

/// The lines from `from` up to `to`, with their numbers.
pub open spec fn numbered_lines(lines: Seq<Seq<char>>, from: int, to: int) -> Seq<Seq<char>> {
    if from < to {
        Seq::new((to - from) as nat, |i: int| numbered((from + i + 1) as nat, lines[from + i]))
    } else {
        Seq::empty()
    }
}

/// Where the lines that are asked for end.
pub open spec fn excerpt_end(total: nat, start: u64, end: u64) -> int {
    if start - 1 + count_of(start, end) < total {
        start - 1 + count_of(start, end)
    } else {
        total as int
    }
}

/// The part of a file that is asked for, with the numbers of its lines.
pub fn read_file(content: &str, args: &Json) -> (r: Excerpt)
    ensures
        ({
            let lines = text::lines(content@);
            let start = start_of(args@);
            let end = end_of(args@);
            &&& r.content@ == truncated(
                text::joined(
                    numbered_lines(lines, start - 1, excerpt_end(lines.len(), start, end)),
                    "\n"@,
                ),
                40_000,
            )
            &&& r.total_lines == lines.len()
            &&& r.start_line == start
            &&& r.end_line == (if end < lines.len() {
                end as int
            } else {
                lines.len() as int
            })
        }),
{
    let start: u64 = match args.get_u64("start_line") {
        Some(n) => if n < 1 {
            1
        } else {
            n
        },
        None => 1,
    };
    let end: u64 = match args.get_u64("end_line") {
        Some(n) => n,
        None => if start > u64::MAX - 399 {
            u64::MAX
        } else {
            start + 399
        },
    };
    let count: u64 = if end < start {
        1
    } else if end - start == u64::MAX {
        u64::MAX
    } else {
        end - start + 1
    };
    let lines = text::lines_of(content);
    let ghost views = text::views(lines@);
    let total: u64 = lines.len() as u64;
    let ghost from = start - 1;
    let ghost to = excerpt_end(views.len(), start, end);
    let mut selected = text::no_texts();
    let mut i: u64 = start - 1;
    let mut taken: u64 = 0;
    assert(numbered_lines(views, from, from) == Seq::<Seq<char>>::empty());
    while i < total && taken < count
        invariant
            views == text::views(lines@),
            total == views.len(),
            lines@.len() == views.len(),
            start >= 1,
            from == start - 1,
            i == from + taken,
            taken <= count,
            count == count_of(start, end),
            i <= total || taken == 0,
            text::views(selected@) == numbered_lines(views, from, i as int),
        decreases count - taken,
    {
        let k: usize = i as usize;
        assert(views[k as int] == lines@[k as int]@);
        let line = text::cat3(&moved_right(i + 1), " | ", &lines[k]);
        let ghost before = text::views(selected@);
        selected = text::with(selected, &line);
        assert(numbered_lines(views, from, i + 1) == before.push(
            numbered((i + 1) as nat, views[i as int]),
        ));
        i += 1;
        taken += 1;
    }
    assert(numbered_lines(views, from, i as int) == numbered_lines(views, from, to));
    let shown = text::join(&selected, "\n");
    Excerpt {
        content: truncate(shown, 40_000),
        total_lines: lines.len(),
        start_line: start,
        end_line: if end < total {
            end
        } else {
            total
        },
    }
}

// ---------------------------------------------------------------------------
// Searching

/// A line that was searched for.
#[derive(Debug)]
pub struct SearchMatch {
    pub path: String,
    pub line: usize,
    pub text: String,
}

/// A line that was searched for.
#[verifier::ext_equal]
pub struct MatchView {
    pub path: Seq<char>,
    pub line: usize,
    pub text: Seq<char>,
}

impl View for SearchMatch {
    type V = MatchView;

    open spec fn view(&self) -> MatchView {
        MatchView { path: self.path@, line: self.line, text: self.text@ }
    }
}

/// Lines that were searched for.
pub open spec fn match_views(v: Seq<SearchMatch>) -> Seq<MatchView> {
    Seq::new(v.len(), |i: int| v[i]@)
}

/// How many lines are found at most.
pub const MAX_MATCHES: usize = 250;

/// The lines found, with those of the first `n` lines of a file; no more than the limit.
pub open spec fn with_matches(
    found: Seq<MatchView>,
    path: Seq<char>,
    lines: Seq<Seq<char>>,
    query: Seq<char>,
    n: nat,
) -> Seq<MatchView>
    decreases n,
{
    if n == 0 {
        found
    } else {
        let before = with_matches(found, path, lines, query, (n - 1) as nat);
        if before.len() < MAX_MATCHES && text::contains_text(lines[n - 1], query) {
            before.push(
                MatchView { path, line: n as usize, text: truncated(lines[n - 1], 500) },
            )
        } else {
            before
        }
    }
}

proof fn lemma_matches_full(
    found: Seq<MatchView>,
    path: Seq<char>,
    lines: Seq<Seq<char>>,
    query: Seq<char>,
    m: nat,
    n: nat,
)
    requires
        m <= n,
        with_matches(found, path, lines, query, m).len() >= MAX_MATCHES,
    ensures
        with_matches(found, path, lines, query, n) == with_matches(found, path, lines, query, m),
    decreases n,
{
    if m < n {
        lemma_matches_full(found, path, lines, query, m, (n - 1) as nat);
    }
}

/// Adds the lines of a file that hold what is searched for; tells whether the limit is reached.
pub fn search(
    platform: Platform,
    found: &mut Vec<SearchMatch>,
    root: &str,
    path: &str,
    content: &str,
    query: &str,
) -> (full: bool)
    requires
        old(found)@.len() < MAX_MATCHES,
    ensures
        match_views(final(found)@) == with_matches(
            match_views(old(found)@),
            paths::with_slashes(paths::relative_to(platform, root@, path@)),
            text::lines(content@),
            query@,
            text::lines(content@).len(),
        ),
        full == (final(found)@.len() == MAX_MATCHES),
{
    let ghost start = match_views(found@);
    let shown = paths::slashed(&paths::relative(platform, root, path));
    let lines = text::lines_of(content);
    let ghost views = text::views(lines@);
    assert(views.len() == lines@.len());
    let mut i: usize = 0;
    while i < lines.len()
        invariant
            i <= lines@.len(),
            start == match_views(old(found)@),
            views == text::views(lines@),
            views == text::lines(content@),
            views.len() == lines@.len(),
            shown@ == paths::with_slashes(paths::relative_to(platform, root@, path@)),
            found@.len() < MAX_MATCHES,
            match_views(found@) == with_matches(start, shown@, views, query@, i as nat),
        decreases lines@.len() - i,
    {
        assert(views[i as int] == lines@[i as int]@);
        if text::contains(&lines[i], query) {
            let ghost before = match_views(found@);
            let hit = SearchMatch {
                path: shown.clone(),
                line: i + 1,
                text: truncate(lines[i].clone(), 500),
            };
            let ghost v = hit@;
            found.push(hit);
            assert(match_views(found@) == before.push(v));
            if found.len() == MAX_MATCHES {
                proof {
                    lemma_matches_full(
                        start,
                        shown@,
                        views,
                        query@,
                        (i + 1) as nat,
                        views.len(),
                    );
                }
                return true;
            }
        }
        i += 1;
    }
    false
}

/// Whether anything can be searched for.
pub fn check_query(query: &str) -> (r: Result<(), String>)
    ensures
        r is Ok == (query@.len() > 0),
        r matches Err(e) ==> e@ == "query cannot be empty"@,
{
    if query.is_empty() {
        Err("query cannot be empty".to_owned())
    } else {
        Ok(())
    }
}

// ---------------------------------------------------------------------------
// Replacing

/// How often a text occurs from a position on; occurrences do not overlap.
pub open spec fn occurrences(s: Seq<char>, old_text: Seq<char>, from: int) -> nat
    decreases s.len() - from,
{
    if from + old_text.len() > s.len() || old_text.len() == 0 {
        0
    } else if text::occurs_at(s, old_text, from) {
        1 + occurrences(s, old_text, from + old_text.len())
    } else {
        occurrences(s, old_text, from + 1)
    }
}

/// Where a text first occurs at or after a position.
pub open spec fn first_occurrence(s: Seq<char>, old_text: Seq<char>, from: int) -> int
    decreases s.len() - from,
{
    if from >= s.len() || from + old_text.len() > s.len() || text::occurs_at(s, old_text, from) {
        from
    } else {
        first_occurrence(s, old_text, from + 1)
    }
}

/// Why a text cannot be replaced.
#[derive(Debug)]
pub enum ReplaceError {
    Empty,
    Count(usize),
}

impl ReplaceError {
    /// What a person is told.
    pub fn message(&self) -> (s: String)
        ensures
            s@ == (match *self {
                ReplaceError::Empty => "old cannot be empty"@,
                ReplaceError::Count(n) => "expected exactly one match, found "@ + text::decimal(
                    n as nat,
                ),
            }),
    {
        match self {
            ReplaceError::Empty => "old cannot be empty".to_owned(),
            ReplaceError::Count(n) => text::cat2(
                "expected exactly one match, found ",
                &text::to_decimal(*n as u64),
            ),
        }
    }
}

/// Replaces a text that occurs exactly once.
pub fn replace_in_file(content: &str, old_text: &str, new_text: &str) -> (r: Result<String, ReplaceError>)
    ensures
        match r {
            Err(ReplaceError::Empty) => old_text@.len() == 0,
            Err(ReplaceError::Count(n)) => old_text@.len() > 0 && n != 1 && n == occurrences(
                content@,
                old_text@,
                0,
            ),
            Ok(s) => old_text@.len() > 0 && occurrences(content@, old_text@, 0) == 1 && ({
                let p = first_occurrence(content@, old_text@, 0);
                s@ == content@.take(p) + new_text@ + content@.skip(p + old_text@.len())
            }),
        },
{
    if old_text.is_empty() {
        return Err(ReplaceError::Empty);
    }
    let v = text::chars_of(content);
    let pat = text::chars_of(old_text);
    let mut count: usize = 0;
    let mut first: usize = 0;
    let mut i: usize = 0;
    while i <= v.len() && v.len() - i >= pat.len()
        invariant
            v@ == content@,
            pat@ == old_text@,
            pat@.len() > 0,
            i <= v@.len(),
            count <= i,
            count + occurrences(content@, old_text@, i as int) == occurrences(
                content@,
                old_text@,
                0,
            ),
            count == 0 ==> first_occurrence(content@, old_text@, 0) == first_occurrence(
                content@,
                old_text@,
                i as int,
            ),
            count > 0 ==> first == first_occurrence(content@, old_text@, 0) && first + pat@.len()
                <= v@.len(),
        decreases v@.len() - i,
    {
        if text::matches_at(&v, &pat, i) {
            if count == 0 {
                first = i;
            }
            count += 1;
            i += pat.len();
        } else {
            i += 1;
        }
    }
    if count != 1 {
        return Err(ReplaceError::Count(count));
    }
    let head = text::text_of_range(&v, 0, first);
    let tail = text::text_of_range(&v, first + pat.len(), v.len());
    assert(head@ == content@.take(first as int));
    assert(tail@ == content@.skip(first + old_text@.len()));
    Ok(text::cat3(&head, new_text, &tail))
}

// ---------------------------------------------------------------------------
// Commands

/// How long a command may run, in seconds.
pub open spec fn seconds_of(args: JsonView) -> u64 {
    match args.unsigned_field("timeout_seconds"@) {
        Some(s) => if s < 1 {
            1
        } else if s > 300 {
            300
        } else {
            s
        },
        None => 120,
    }
}

/// How long a command may run, in seconds.
pub fn command_seconds(args: &Json) -> (n: u64)
    ensures
        n == seconds_of(args@),
{
    match args.get_u64("timeout_seconds") {
        Some(s) => if s < 1 {
            1
        } else if s > 300 {
            300
        } else {
            s
        },
        None => 120,
    }
}

/// What is run for a command: the program, then its arguments.
pub fn noninteractive_command(platform: Platform, command: &str) -> (r: Vec<String>)
    ensures
        text::views(r@) == (if platform == Platform::Windows {
            seq!["powershell"@, "-NoLogo"@, "-NoProfile"@, "-Command"@, command@]
        } else {
            seq!["sh"@, "-lc"@, command@]
        }),
{
    let none = text::no_texts();
    match platform {
        Platform::Windows => text::with(
            text::with(
                text::with(text::with(text::with(none, "powershell"), "-NoLogo"), "-NoProfile"),
                "-Command",
            ),
            command,
        ),
        _ => text::with(text::with(text::with(none, "sh"), "-lc"), command),
    }
}

// ---------------------------------------------------------------------------
// What always holds

proof fn lemma_byte_len_take(s: Seq<char>, k: nat, n: nat)
    requires
        n <= k <= s.len(),
    ensures
        byte_len(s.take(k as int), n) == byte_len(s, n),
    decreases n,
{
    if n > 0 {
        lemma_byte_len_take(s, k, (n - 1) as nat);
    }
}

proof fn lemma_fitting(s: Seq<char>, max: nat, k: nat)
    requires
        k <= s.len(),
        byte_len(s, k) <= max,
    ensures
        k <= fitting(s, max, k) <= s.len(),
        byte_len(s, fitting(s, max, k)) <= max,
        fitting(s, max, k) < s.len() ==> byte_len(s, fitting(s, max, k) + 1) > max,
    decreases s.len() - k,
{
    if k < s.len() && byte_len(s, k + 1) <= max {
        lemma_fitting(s, max, k + 1);
    }
}

/// What stays of a long text takes at most the bytes that it may, and one character more would not.
pub proof fn truncation_keeps_what_fits(s: Seq<char>, max: nat)
    ensures
        ({
            let k = fitting(s, max, 0);
            &&& k <= s.len()
            &&& byte_len(s.take(k as int), k) <= max
            &&& k < s.len() ==> byte_len(s, k + 1) > max
        }),
{
    lemma_fitting(s, max, 0);
    let k = fitting(s, max, 0);
    lemma_byte_len_take(s, k, k);
}

/// Replacing a text by another, and that one back, gives the file again.
pub proof fn a_replacement_can_be_undone(
    content: Seq<char>,
    old_text: Seq<char>,
    new_text: Seq<char>,
)
    requires
        occurrences(content, old_text, 0) == 1,
    ensures
        ({
            let p = first_occurrence(content, old_text, 0);
            let changed = content.take(p) + new_text + content.skip(p + old_text.len());
            changed.take(p) + old_text + changed.skip(p + new_text.len()) == content
        }),
{
    lemma_first_occurrence(content, old_text, 0);
    let p = first_occurrence(content, old_text, 0);
    let changed = content.take(p) + new_text + content.skip(p + old_text.len());
    assert(changed.take(p) == content.take(p));
    assert(changed.skip(p + new_text.len()) == content.skip(p + old_text.len()));
    assert(content.subrange(p, p + old_text.len()) == old_text);
    assert(content.take(p) + old_text + content.skip(p + old_text.len()) == content);
}

proof fn lemma_first_occurrence(s: Seq<char>, old_text: Seq<char>, from: int)
    requires
        0 <= from,
        occurrences(s, old_text, from) > 0,
    ensures
        from <= first_occurrence(s, old_text, from),
        text::occurs_at(s, old_text, first_occurrence(s, old_text, from)),
    decreases s.len() - from,
{
    if !text::occurs_at(s, old_text, from) {
        lemma_first_occurrence(s, old_text, from + 1);
    }
}

/// Where no last line is asked for, four hundred lines are shown from the first one on, or as many as
/// there are, each with its number; the end that is told is the number of the last of them.
pub proof fn reading_goes_on_from_the_line_asked_for(lines: Seq<Seq<char>>, args: JsonView, s: u64)
    requires
        args.field("start_line"@) == Some(JsonView::Number(json::NumberView::Unsigned(s))) || (
        args.field("start_line"@) is None && s == 1),
        args.field("end_line"@) is None,
        1 <= s <= lines.len() <= u64::MAX,
    ensures
        ({
            let shown = numbered_lines(
                lines,
                start_of(args) - 1,
                excerpt_end(lines.len(), start_of(args), end_of(args)),
            );
            let told = if end_of(args) < lines.len() {
                end_of(args) as int
            } else {
                lines.len() as int
            };
            &&& start_of(args) == s
            &&& shown.len() == (if lines.len() - s + 1 < 400 {
                lines.len() - s + 1
            } else {
                400
            })
            &&& told == s + shown.len() - 1
            &&& told >= s
            &&& forall|i: int|
                0 <= i < shown.len() ==> #[trigger] shown[i] == six_places((s + i) as nat) + " | "@
                    + lines[s + i - 1]
        }),
{
}

/// Where a first and a last line are asked for, the lines from the one to the other are shown, as far
/// as there are any; where the last stands before the first, the first one is shown.
pub proof fn the_lines_asked_for_are_shown(lines: Seq<Seq<char>>, args: JsonView, s: u64, e: u64)
    requires
        args.field("start_line"@) == Some(JsonView::Number(json::NumberView::Unsigned(s))) || (
        args.field("start_line"@) is None && s == 1),
        args.field("end_line"@) == Some(JsonView::Number(json::NumberView::Unsigned(e))),
        1 <= s <= lines.len() <= u64::MAX,
    ensures
        ({
            let shown = numbered_lines(
                lines,
                start_of(args) - 1,
                excerpt_end(lines.len(), start_of(args), end_of(args)),
            );
            &&& start_of(args) == s
            &&& end_of(args) == e
            &&& e < s ==> shown.len() == 1
            &&& s <= e <= lines.len() ==> shown.len() == e - s + 1
            &&& s <= e && e > lines.len() ==> shown.len() == lines.len() - s + 1
            &&& forall|i: int|
                0 <= i < shown.len() ==> #[trigger] shown[i] == six_places((s + i) as nat) + " | "@
                    + lines[s + i - 1]
        }),
{
}

/// Behind the end of a file there is nothing to show.
pub proof fn nothing_is_shown_behind_the_end(lines: Seq<Seq<char>>, args: JsonView)
    requires
        start_of(args) > lines.len(),
    ensures
        numbered_lines(
            lines,
            start_of(args) - 1,
            excerpt_end(lines.len(), start_of(args), end_of(args)),
        ).len() == 0,
{
}

/// The number of a line stands at the right of six places, or takes more where it is longer.
pub proof fn numbers_stand_at_the_right(n: nat)
    ensures
        ({
            let d = text::decimal(n);
            let shown = six_places(n);
            &&& shown.len() >= 6
            &&& shown.len() > 6 ==> shown.len() == d.len()
            &&& shown.skip(shown.len() - d.len()) == d
            &&& forall|i: int| 0 <= i < shown.len() - d.len() ==> #[trigger] shown[i] == ' '
        }),
{
    let d = text::decimal(n);
    let shown = six_places(n);
    assert(shown.skip(shown.len() - d.len()) == d);
}

/// What takes no more bytes than it may stays whole; of what takes more, the beginning stays, with a
/// notice behind it.
pub proof fn short_texts_stay_whole(s: Seq<char>, max: nat)
    ensures
        byte_len(s, s.len()) <= max ==> truncated(s, max) == s,
        byte_len(s, s.len()) > max ==> exists|k: int|
            0 <= k < s.len() && truncated(s, max) == #[trigger] s.take(k)
                + "\n… output truncated …"@ && byte_len(s, k as nat) <= max && byte_len(
                s,
                (k + 1) as nat,
            ) > max,
{
    lemma_fitting(s, max, 0);
    if byte_len(s, s.len()) > max {
        let k = fitting(s, max, 0) as int;
        assert(truncated(s, max) == s.take(k) + "\n… output truncated …"@);
    }
}

/// How deep files are listed is what is asked for, but at least one and at most eight levels, and
/// three where nothing is asked for; how long a command may run is what is asked for, but at least one
/// second and at most five minutes, and two minutes where nothing is asked for.
pub proof fn limits_hold_what_is_asked_for(args: JsonView, n: u64)
    ensures
        args.field("max_depth"@) == Some(JsonView::Number(json::NumberView::Unsigned(n))) ==> {
            &&& 1 <= n <= 8 ==> depth_of(args) == n
            &&& n == 0 ==> depth_of(args) == 1
            &&& n > 8 ==> depth_of(args) == 8
        },
        args.field("max_depth"@) is None ==> depth_of(args) == 3,
        args.field("timeout_seconds"@) == Some(JsonView::Number(json::NumberView::Unsigned(n)))
            ==> {
            &&& 1 <= n <= 300 ==> seconds_of(args) == n
            &&& n == 0 ==> seconds_of(args) == 1
            &&& n > 300 ==> seconds_of(args) == 300
        },
        args.field("timeout_seconds"@) is None ==> seconds_of(args) == 120,
{
}

/// A search keeps what was found before, and adds lines of the file that hold what is searched for,
/// with their numbers, in their order; while the limit is not reached it adds every one of them.
pub proof fn a_search_finds_every_line(
    found: Seq<MatchView>,
    path: Seq<char>,
    lines: Seq<Seq<char>>,
    query: Seq<char>,
    n: nat,
)
    requires
        n <= lines.len() <= usize::MAX,
        found.len() <= 250,
    ensures
        ({
            let all = with_matches(found, path, lines, query, n);
            &&& found.len() <= all.len() <= 250
            &&& all.take(found.len() as int) == found
            &&& forall|k: int|
                found.len() <= k < all.len() ==> {
                    &&& 1 <= (#[trigger] all[k]).line <= n
                    &&& all[k].path == path
                    &&& text::contains_text(lines[all[k].line - 1], query)
                    &&& all[k].text == truncated(lines[all[k].line - 1], 500)
                }
            &&& forall|k: int, l: int|
                found.len() <= k < l < all.len() ==> (#[trigger] all[k]).line < (
                #[trigger] all[l]).line
            &&& all.len() < 250 ==> forall|i: int|
                0 <= i < n && text::contains_text(#[trigger] lines[i], query) ==> exists|k: int|
                    found.len() <= k < all.len() && (#[trigger] all[k]).line == i + 1
        }),
    decreases n,
{
    let all = with_matches(found, path, lines, query, n);
    if n == 0 {
        assert(all.take(found.len() as int) == found);
    } else {
        a_search_finds_every_line(found, path, lines, query, (n - 1) as nat);
        let before = with_matches(found, path, lines, query, (n - 1) as nat);
        if before.len() < MAX_MATCHES && text::contains_text(lines[n - 1], query) {
            assert(all.take(found.len() as int) == before.take(found.len() as int));
            assert forall|i: int|
                0 <= i < n && text::contains_text(#[trigger] lines[i], query) implies exists|
                k: int,
            |
                found.len() <= k < all.len() && (#[trigger] all[k]).line == i + 1 by {
                if i == n - 1 {
                    assert(all[before.len() as int].line == i + 1);
                } else {
                    let k = choose|k: int|
                        found.len() <= k < before.len() && (#[trigger] before[k]).line == i + 1;
                    assert(all[k] == before[k]);
                }
            }
        }
    }
}

proof fn lemma_count_finds(s: Seq<char>, old_text: Seq<char>, from: int, i: int)
    requires
        0 <= from <= i,
        old_text.len() > 0,
        text::occurs_at(s, old_text, i),
    ensures
        occurrences(s, old_text, from) > 0,
    decreases s.len() - from,
{
    if !text::occurs_at(s, old_text, from) {
        lemma_count_finds(s, old_text, from + 1, i);
    }
}

proof fn lemma_count_two(s: Seq<char>, old_text: Seq<char>, from: int, i: int, j: int)
    requires
        0 <= from <= i,
        i + old_text.len() <= j,
        old_text.len() > 0,
        text::occurs_at(s, old_text, i),
        text::occurs_at(s, old_text, j),
    ensures
        occurrences(s, old_text, from) >= 2,
    decreases s.len() - from,
{
    if text::occurs_at(s, old_text, from) {
        lemma_count_finds(s, old_text, from + old_text.len(), j);
    } else {
        lemma_count_two(s, old_text, from + 1, i, j);
    }
}

proof fn lemma_count_none(s: Seq<char>, old_text: Seq<char>, from: int)
    requires
        0 <= from,
        occurrences(s, old_text, from) > 0,
    ensures
        exists|i: int| from <= i && #[trigger] text::occurs_at(s, old_text, i),
    decreases s.len() - from,
{
    if !text::occurs_at(s, old_text, from) {
        lemma_count_none(s, old_text, from + 1);
    }
}

proof fn lemma_first_is_first(s: Seq<char>, old_text: Seq<char>, from: int, i: int)
    requires
        0 <= from <= i,
        old_text.len() > 0,
        text::occurs_at(s, old_text, i),
    ensures
        from <= first_occurrence(s, old_text, from) <= i,
    decreases s.len() - from,
{
    if !text::occurs_at(s, old_text, from) {
        lemma_first_is_first(s, old_text, from + 1, i);
    }
}

/// A text is replaced where it stands: it is counted as none exactly where it stands nowhere, as more
/// than one wherever it stands at two places apart, and the place that is replaced is the first one.
pub proof fn the_text_is_replaced_where_it_stands(s: Seq<char>, old_text: Seq<char>)
    requires
        old_text.len() > 0,
    ensures
        occurrences(s, old_text, 0) == 0 <==> !text::contains_text(s, old_text),
        forall|i: int, j: int|
            0 <= i && i + old_text.len() <= j && #[trigger] text::occurs_at(s, old_text, i)
                && #[trigger] text::occurs_at(s, old_text, j) ==> occurrences(s, old_text, 0) >= 2,
        text::contains_text(s, old_text) ==> {
            let p = first_occurrence(s, old_text, 0);
            &&& 0 <= p && p + old_text.len() <= s.len()
            &&& s.subrange(p, p + old_text.len()) == old_text
            &&& forall|i: int| #[trigger] text::occurs_at(s, old_text, i) ==> p <= i
        },
{
    if text::contains_text(s, old_text) {
        let i = choose|i: int| text::occurs_at(s, old_text, i);
        lemma_count_finds(s, old_text, 0, i);
        lemma_first_occurrence(s, old_text, 0);
        assert forall|i: int| #[trigger]
            text::occurs_at(s, old_text, i) implies first_occurrence(s, old_text, 0) <= i by {
            lemma_first_is_first(s, old_text, 0, i);
        }
    } else if occurrences(s, old_text, 0) > 0 {
        lemma_count_none(s, old_text, 0);
    }
    assert forall|i: int, j: int|
        0 <= i && i + old_text.len() <= j && #[trigger] text::occurs_at(s, old_text, i)
            && #[trigger] text::occurs_at(s, old_text, j) implies occurrences(s, old_text, 0)
        >= 2 by {
        lemma_count_two(s, old_text, 0, i, j);
    }
}

/// Everything that was found in a directory is listed under its path from the root, a directory with a
/// slash behind it, in the order in which it was found; the directory itself is not.
pub proof fn everything_found_is_listed(
    platform: Platform,
    root: Seq<char>,
    path: Seq<char>,
    found: Seq<WalkEntry>,
    n: nat,
)
    requires
        0 < n <= found.len(),
    ensures
        ({
            let before = listed_entries(platform, root, path, found, (n - 1) as nat);
            let all = listed_entries(platform, root, path, found, n);
            let e = found[n - 1];
            let shown = paths::relative_to(platform, root, e.path@);
            &&& e.path@ == path ==> all == before
            &&& e.path@ != path && !e.is_directory ==> all == before.push(
                paths::with_slashes(shown),
            )
            &&& e.path@ != path && e.is_directory ==> all == before.push(
                paths::with_slashes(shown.push('/')),
            )
        }),
        listed_entries(platform, root, path, found, 0).len() == 0,
{
}

/// The bytes that a text is counted with are those that it takes in UTF-8.
pub proof fn bytes_are_those_of_the_encoding(s: Seq<char>)
    ensures
        byte_len(s, s.len()) == vstd::utf8::encode_utf8(s).len(),
    decreases s.len(),
{
    if s.len() > 0 {
        bytes_are_those_of_the_encoding(s.drop_first());
        lemma_bytes_behind_first(s, s.len());
        let c = s[0];
        lemma_width(c);
        assert(vstd::utf8::encode_utf8(s) == vstd::utf8::encode_scalar(c as u32)
            + vstd::utf8::encode_utf8(s.drop_first()));
    }
}

proof fn lemma_width(c: char)
    ensures
        vstd::utf8::encode_scalar(c as u32).len() == byte_width(c),
{
    let n = c as u32;
    assert(n == c as int);
}

proof fn lemma_bytes_behind_first(s: Seq<char>, n: nat)
    requires
        0 < n <= s.len(),
    ensures
        byte_len(s, n) == byte_width(s[0]) + byte_len(s.drop_first(), (n - 1) as nat),
    decreases n,
{
    if n > 1 {
        lemma_bytes_behind_first(s, (n - 1) as nat);
        assert(s.drop_first()[n - 2] == s[n - 1]);
    } else {
        assert(byte_len(s, 0) == 0);
        assert(byte_len(s.drop_first(), 0) == 0);
    }
}

/// A tool is called by its name; those on other sessions are there only where sessions are
/// controlled, and a name that no tool has calls none.
pub proof fn tools_are_called_by_their_names(name: Seq<char>, controls: bool)
    ensures
        tool_named("list_files"@, controls) == Ok::<ToolName, Seq<char>>(ToolName::ListFiles),
        tool_named("read_file"@, controls) == Ok::<ToolName, Seq<char>>(ToolName::ReadFile),
        tool_named("search"@, controls) == Ok::<ToolName, Seq<char>>(ToolName::Search),
        tool_named("write_file"@, controls) == Ok::<ToolName, Seq<char>>(ToolName::WriteFile),
        tool_named("replace_in_file"@, controls) == Ok::<ToolName, Seq<char>>(
            ToolName::ReplaceInFile,
        ),
        tool_named("shell"@, controls) == Ok::<ToolName, Seq<char>>(ToolName::Shell),
        tool_named("shell_noninteractive"@, controls) == Ok::<ToolName, Seq<char>>(
            ToolName::ShellNoninteractive,
        ),
        tool_named("terminal_input"@, controls) == Ok::<ToolName, Seq<char>>(
            ToolName::TerminalInput,
        ),
        tool_named("terminal_read"@, controls) == Ok::<ToolName, Seq<char>>(ToolName::TerminalRead),
        tool_named("terminal_close"@, controls) == Ok::<ToolName, Seq<char>>(
            ToolName::TerminalClose,
        ),
        tool_named("terminal_list"@, controls) == Ok::<ToolName, Seq<char>>(ToolName::TerminalList),
        tool_named(name, controls) == Ok::<ToolName, Seq<char>>(ToolName::Session) ==> controls
            && text::begins_with(name, "session_"@),
        text::begins_with(name, "session_"@) ==> (if controls {
            tool_named(name, controls) == Ok::<ToolName, Seq<char>>(ToolName::Session)
        } else {
            tool_named(name, controls) is Err
        }),
{
    reveal_strlit("list_files");
    reveal_strlit("read_file");
    reveal_strlit("search");
    reveal_strlit("write_file");
    reveal_strlit("replace_in_file");
    reveal_strlit("shell");
    reveal_strlit("shell_noninteractive");
    reveal_strlit("terminal_input");
    reveal_strlit("terminal_read");
    reveal_strlit("terminal_close");
    reveal_strlit("terminal_list");
    reveal_strlit("session_");
    assert("list_files"@.len() == 10 && "read_file"@.len() == 9 && "search"@.len() == 6
        && "write_file"@.len() == 10 && "replace_in_file"@.len() == 15 && "shell"@.len() == 5
        && "shell_noninteractive"@.len() == 20 && "terminal_input"@.len() == 14
        && "terminal_read"@.len() == 13 && "terminal_close"@.len() == 14 && "terminal_list"@.len()
        == 13);
    assert("list_files"@[0] == 'l' && "write_file"@[0] == 'w' && "terminal_input"@[9] == 'i'
        && "terminal_close"@[9] == 'c' && "terminal_read"@[9] == 'r' && "terminal_list"@[9] == 'l');
    assert("session_"@[0] == 's' && "session_"@[1] == 'e' && "session_"@[2] == 's'
        && "session_"@.len() == 8);
    assert("read_file"@[0] == 'r' && "replace_in_file"@[0] == 'r' && "shell_noninteractive"@[1]
        == 'h' && "terminal_input"@[0] == 't' && "terminal_read"@[0] == 't' && "terminal_close"@[0]
        == 't' && "terminal_list"@[0] == 't');
    if text::begins_with(name, "session_"@) {
        assert(name.subrange(0, 8)[0] == name[0]);
        assert(name.subrange(0, 8)[1] == name[1]);
        assert(name[0] == 's' && name[1] == 'e');
        assert(name.len() >= 8);
    }
}

/// A file that was written is answered with its path and the number of its bytes.
pub proof fn a_written_file_is_answered(path: Seq<char>, content: Seq<char>)
    ensures
        ({
            let a = JsonView::Object(written_fields(path, content));
            &&& a.text_field("path"@) == Some(path)
            &&& a.unsigned_field("bytes"@) == Some(byte_len(content, content.len()) as u64)
        }),
{
    reveal_with_fuel(json::field_position, 3);
    reveal_strlit("path");
    reveal_strlit("bytes");
    assert("path"@.len() == 4 && "bytes"@.len() == 5);
}

/// Reading a file without a last line gives the lines from the first one asked for on, at most four
/// hundred of them, numbered as they stand, and says which they are.
pub proof fn a_file_is_read_from_the_line_asked_for(
    content: &str,
    args: &Json,
    s: u64,
    r: Excerpt,
) -> (shown: Seq<Seq<char>>)
    requires
        call_ensures(read_file, (content, args), r),
        args@.field("start_line"@) == Some(JsonView::Number(json::NumberView::Unsigned(s))) || (
        args@.field("start_line"@) is None && s == 1),
        args@.field("end_line"@) is None,
        1 <= s <= text::lines(content@).len() <= u64::MAX,
    ensures
        r.content@ == truncated(text::joined(shown, "\n"@), 40_000),
        r.start_line == s,
        r.total_lines == text::lines(content@).len(),
        r.end_line == s + shown.len() - 1,
        shown.len() <= 400,
        shown.len() < 400 ==> r.end_line == r.total_lines,
        forall|i: int|
            0 <= i < shown.len() ==> #[trigger] shown[i] == six_places((s + i) as nat) + " | "@
                + text::lines(content@)[s + i - 1],
{
    let lines = text::lines(content@);
    reading_goes_on_from_the_line_asked_for(lines, args@, s);
    numbered_lines(
        lines,
        start_of(args@) - 1,
        excerpt_end(lines.len(), start_of(args@), end_of(args@)),
    )
}

/// Reading a file up to a line gives the lines from the first to the last one asked for, as far as
/// there are any.
pub proof fn a_file_is_read_up_to_the_line_asked_for(
    content: &str,
    args: &Json,
    s: u64,
    e: u64,
    r: Excerpt,
) -> (shown: Seq<Seq<char>>)
    requires
        call_ensures(read_file, (content, args), r),
        args@.field("start_line"@) == Some(JsonView::Number(json::NumberView::Unsigned(s))) || (
        args@.field("start_line"@) is None && s == 1),
        args@.field("end_line"@) == Some(JsonView::Number(json::NumberView::Unsigned(e))),
        1 <= s <= e,
        s <= text::lines(content@).len() <= u64::MAX,
    ensures
        r.content@ == truncated(text::joined(shown, "\n"@), 40_000),
        r.start_line == s,
        r.end_line == s + shown.len() - 1,
        e <= text::lines(content@).len() ==> r.end_line == e,
        e > text::lines(content@).len() ==> r.end_line == text::lines(content@).len(),
        forall|i: int|
            0 <= i < shown.len() ==> #[trigger] shown[i] == six_places((s + i) as nat) + " | "@
                + text::lines(content@)[s + i - 1],
{
    let lines = text::lines(content@);
    the_lines_asked_for_are_shown(lines, args@, s, e);
    numbered_lines(
        lines,
        start_of(args@) - 1,
        excerpt_end(lines.len(), start_of(args@), end_of(args@)),
    )
}

/// A command is run whole, by the shell of the system.
pub proof fn a_command_is_run_whole(platform: Platform, command: &str, r: Vec<String>)
    requires
        call_ensures(noninteractive_command, (platform, command), r),
    ensures
        r@.len() > 2,
        r@.last()@ == command@,
        platform == Platform::Windows ==> r@[0]@ == "powershell"@,
        platform != Platform::Windows ==> r@[0]@ == "sh"@,
{
    let v = text::views(r@);
    assert(v.len() == r@.len());
    assert(v[v.len() - 1] == r@.last()@);
    assert(v[0] == r@[0]@);
}

} // verus!
