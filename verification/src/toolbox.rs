//! From the call of a tool to what has to be done, and from what came of it to the answer.
use crate::json;
use crate::json::{Json, JsonNumber, JsonView, NumberView};
use crate::payload;
use crate::schema;
use crate::text;
use crate::tools;
use crate::tools::{Excerpt, MatchView, SearchMatch, ToolName};
use vstd::prelude::*;
use vstd::string::*;

verus! {

// ---------------------------------------------------------------------------
// Calls

/// What a tool has to do.
#[derive(Debug)]
pub enum ToolAction {
    ListFiles { path: String, depth: u64 },
    ReadFile { path: String, args: Json },
    Search { query: String, path: String },
    WriteFile { path: String, content: String },
    ReplaceInFile { path: String, old_text: String, new_text: String },
    Shell { command: String },
    ShellNoninteractive { command: String, seconds: u64 },
    TerminalInput { terminal_id: String, actions: Vec<Json> },
    TerminalRead { terminal_id: String },
    TerminalClose { terminal_id: String },
    TerminalList,
    /// Something with other sessions, which the tools on sessions know.
    Session,
}

/// What a tool has to do.
pub enum ToolActionView {
    ListFiles { path: Seq<char>, depth: u64 },
    ReadFile { path: Seq<char>, args: JsonView },
    Search { query: Seq<char>, path: Seq<char> },
    WriteFile { path: Seq<char>, content: Seq<char> },
    ReplaceInFile { path: Seq<char>, old_text: Seq<char>, new_text: Seq<char> },
    Shell { command: Seq<char> },
    ShellNoninteractive { command: Seq<char>, seconds: u64 },
    TerminalInput { terminal_id: Seq<char>, actions: Seq<JsonView> },
    TerminalRead { terminal_id: Seq<char> },
    TerminalClose { terminal_id: Seq<char> },
    TerminalList,
    Session,
}

impl View for ToolAction {
    type V = ToolActionView;

    open spec fn view(&self) -> ToolActionView {
        match *self {
            ToolAction::ListFiles { path, depth } => ToolActionView::ListFiles {
                path: path@,
                depth,
            },
            ToolAction::ReadFile { path, args } => ToolActionView::ReadFile {
                path: path@,
                args: args@,
            },
            ToolAction::Search { query, path } => ToolActionView::Search {
                query: query@,
                path: path@,
            },
            ToolAction::WriteFile { path, content } => ToolActionView::WriteFile {
                path: path@,
                content: content@,
            },
            ToolAction::ReplaceInFile { path, old_text, new_text } =>
                ToolActionView::ReplaceInFile {
                path: path@,
                old_text: old_text@,
                new_text: new_text@,
            },
            ToolAction::Shell { command } => ToolActionView::Shell { command: command@ },
            ToolAction::ShellNoninteractive { command, seconds } =>
                ToolActionView::ShellNoninteractive { command: command@, seconds },
            ToolAction::TerminalInput { terminal_id, actions } => ToolActionView::TerminalInput {
                terminal_id: terminal_id@,
                actions: json::item_views(actions@),
            },
            ToolAction::TerminalRead { terminal_id } => ToolActionView::TerminalRead {
                terminal_id: terminal_id@,
            },
            ToolAction::TerminalClose { terminal_id } => ToolActionView::TerminalClose {
                terminal_id: terminal_id@,
            },
            ToolAction::TerminalList => ToolActionView::TerminalList,
            ToolAction::Session => ToolActionView::Session,
        }
    }
}

/// Where a tool looks: in the working directory where nothing else is said.
pub open spec fn place(args: JsonView) -> Seq<char> {
    match args.text_field("path"@) {
        Some(p) => p,
        None => "."@,
    }
}

/// What a search has to do, or what is wrong with what is asked for.
pub open spec fn search_of(args: JsonView) -> Result<ToolActionView, Seq<char>> {
    match schema::text_argument(args, "query"@) {
        Err(e) => Err(e),
        Ok(query) => if query.len() == 0 {
            Err("query cannot be empty"@)
        } else {
            Ok(ToolActionView::Search { query, path: place(args) })
        },
    }
}

/// What writing a file has to do, or what is wrong with what is asked for.
pub open spec fn write_of(args: JsonView) -> Result<ToolActionView, Seq<char>> {
    match schema::text_argument(args, "path"@) {
        Err(e) => Err(e),
        Ok(path) => match schema::text_argument(args, "content"@) {
            Err(e) => Err(e),
            Ok(content) => Ok(ToolActionView::WriteFile { path, content }),
        },
    }
}

/// What a replacement has to do, or what is wrong with what is asked for.
pub open spec fn replacement_of(args: JsonView) -> Result<ToolActionView, Seq<char>> {
    match schema::text_argument(args, "path"@) {
        Err(e) => Err(e),
        Ok(path) => match schema::text_argument(args, "old"@) {
            Err(e) => Err(e),
            Ok(old_text) => match schema::text_argument(args, "new"@) {
                Err(e) => Err(e),
                Ok(new_text) => if old_text.len() == 0 {
                    Err("old cannot be empty"@)
                } else {
                    Ok(ToolActionView::ReplaceInFile { path, old_text, new_text })
                },
            },
        },
    }
}

/// What input to a terminal has to do, or what is wrong with what is asked for.
pub open spec fn input_of(args: JsonView) -> Result<ToolActionView, Seq<char>> {
    match schema::text_argument(args, "terminal_id"@) {
        Err(e) => Err(e),
        Ok(terminal_id) => match args.field("actions"@) {
            Some(JsonView::Array(actions)) => Ok(
                ToolActionView::TerminalInput { terminal_id, actions },
            ),
            _ => Err("missing array argument \"actions\""@),
        },
    }
}

/// What a tool has to do, or what is wrong with what is asked for.
pub open spec fn asked(tool: ToolName, args: JsonView) -> Result<ToolActionView, Seq<char>> {
    match tool {
        ToolName::ListFiles => Ok(
            ToolActionView::ListFiles { path: place(args), depth: tools::depth_of(args) },
        ),
        ToolName::ReadFile => match schema::text_argument(args, "path"@) {
            Ok(path) => Ok(ToolActionView::ReadFile { path, args }),
            Err(e) => Err(e),
        },
        ToolName::Search => search_of(args),
        ToolName::WriteFile => write_of(args),
        ToolName::ReplaceInFile => replacement_of(args),
        ToolName::Shell => match schema::text_argument(args, "command"@) {
            Ok(command) => Ok(ToolActionView::Shell { command }),
            Err(e) => Err(e),
        },
        ToolName::ShellNoninteractive => match schema::text_argument(args, "command"@) {
            Ok(command) => Ok(
                ToolActionView::ShellNoninteractive { command, seconds: tools::seconds_of(args) },
            ),
            Err(e) => Err(e),
        },
        ToolName::TerminalInput => input_of(args),
        ToolName::TerminalRead => match schema::text_argument(args, "terminal_id"@) {
            Ok(terminal_id) => Ok(ToolActionView::TerminalRead { terminal_id }),
            Err(e) => Err(e),
        },
        ToolName::TerminalClose => match schema::text_argument(args, "terminal_id"@) {
            Ok(terminal_id) => Ok(ToolActionView::TerminalClose { terminal_id }),
            Err(e) => Err(e),
        },
        ToolName::TerminalList => Ok(ToolActionView::TerminalList),
        ToolName::Session => Ok(ToolActionView::Session),
    }
}

/// A text argument that has to be there, as a text of its own.
fn owned(args: &Json, name: &str) -> (r: Result<String, String>)
    ensures
        match r {
            Ok(s) => schema::text_argument(args@, name@) == Ok::<Seq<char>, Seq<char>>(s@),
            Err(e) => schema::text_argument(args@, name@) == Err::<Seq<char>, Seq<char>>(e@),
        },
{
    match schema::required_string(args, name) {
        Ok(s) => Ok(s.to_owned()),
        Err(e) => Err(e),
    }
}

fn search(args: &Json) -> (r: Result<ToolAction, String>)
    ensures
        match r {
            Ok(a) => search_of(args@) == Ok::<ToolActionView, Seq<char>>(a@),
            Err(e) => search_of(args@) == Err::<ToolActionView, Seq<char>>(e@),
        },
{
    let query = owned(args, "query")?;
    tools::check_query(&query)?;
    let path = schema::string_arg_or(args, "path", ".").to_owned();
    Ok(ToolAction::Search { query, path })
}

fn write(args: &Json) -> (r: Result<ToolAction, String>)
    ensures
        match r {
            Ok(a) => write_of(args@) == Ok::<ToolActionView, Seq<char>>(a@),
            Err(e) => write_of(args@) == Err::<ToolActionView, Seq<char>>(e@),
        },
{
    let path = owned(args, "path")?;
    let content = owned(args, "content")?;
    Ok(ToolAction::WriteFile { path, content })
}

fn replacement(args: &Json) -> (r: Result<ToolAction, String>)
    ensures
        match r {
            Ok(a) => replacement_of(args@) == Ok::<ToolActionView, Seq<char>>(a@),
            Err(e) => replacement_of(args@) == Err::<ToolActionView, Seq<char>>(e@),
        },
{
    let path = owned(args, "path")?;
    let old_text = owned(args, "old")?;
    let new_text = owned(args, "new")?;
    if old_text.as_str().is_empty() {
        return Err("old cannot be empty".to_owned());
    }
    Ok(ToolAction::ReplaceInFile { path, old_text, new_text })
}

fn input(args: &Json) -> (r: Result<ToolAction, String>)
    ensures
        match r {
            Ok(a) => input_of(args@) == Ok::<ToolActionView, Seq<char>>(a@),
            Err(e) => input_of(args@) == Err::<ToolActionView, Seq<char>>(e@),
        },
{
    let terminal_id = owned(args, "terminal_id")?;
    match args.get("actions") {
        Some(value) => match value.copy() {
            Json::Array(actions) => Ok(ToolAction::TerminalInput { terminal_id, actions }),
            _ => Err("missing array argument \"actions\"".to_owned()),
        },
        None => Err("missing array argument \"actions\"".to_owned()),
    }
}

/// What a tool has to do, or what is wrong with what is asked for.
pub fn plan(tool: ToolName, args: &Json) -> (r: Result<ToolAction, String>)
    ensures
        match r {
            Ok(a) => asked(tool, args@) == Ok::<ToolActionView, Seq<char>>(a@),
            Err(e) => asked(tool, args@) == Err::<ToolActionView, Seq<char>>(e@),
        },
{
    match tool {
        ToolName::ListFiles => Ok(
            ToolAction::ListFiles {
                path: schema::string_arg_or(args, "path", ".").to_owned(),
                depth: tools::listing_depth(args),
            },
        ),
        ToolName::ReadFile => {
            let path = owned(args, "path")?;
            Ok(ToolAction::ReadFile { path, args: args.copy() })
        },
        ToolName::Search => search(args),
        ToolName::WriteFile => write(args),
        ToolName::ReplaceInFile => replacement(args),
        ToolName::Shell => Ok(ToolAction::Shell { command: owned(args, "command")? }),
        ToolName::ShellNoninteractive => {
            let command = owned(args, "command")?;
            Ok(ToolAction::ShellNoninteractive { command, seconds: tools::command_seconds(args) })
        },
        ToolName::TerminalInput => input(args),
        ToolName::TerminalRead => Ok(
            ToolAction::TerminalRead { terminal_id: owned(args, "terminal_id")? },
        ),
        ToolName::TerminalClose => Ok(
            ToolAction::TerminalClose { terminal_id: owned(args, "terminal_id")? },
        ),
        ToolName::TerminalList => Ok(ToolAction::TerminalList),
        ToolName::Session => Ok(ToolAction::Session),
    }
}

/// What a call of a tool has to do, by its name and the text of its arguments, or what is wrong with
/// it: arguments that are no JSON are told of first.
pub fn execute(name: &str, args: &str, controls_sessions: bool) -> (r: Result<ToolAction, String>)
    ensures
        match json::read_json(args@) {
            Err(m) => r matches Err(e) && e@ == "invalid arguments: "@ + m,
            Ok(parsed) => match tools::tool_named(name@, controls_sessions) {
                Err(m) => r matches Err(e) && e@ == m,
                Ok(tool) => match r {
                    Ok(a) => asked(tool, parsed) == Ok::<ToolActionView, Seq<char>>(a@),
                    Err(e) => asked(tool, parsed) == Err::<ToolActionView, Seq<char>>(e@),
                },
            },
        },
{
    match tools::parse_arguments(args) {
        Err(e) => Err(e),
        Ok(parsed) => match tools::find_tool(name, controls_sessions) {
            Err(e) => Err(e),
            Ok(tool) => plan(tool, &parsed),
        },
    }
}

/// Why a tool cannot do something with a file.
#[derive(Debug)]
pub enum FileFault {
    /// There is nothing at the path.
    Missing(String),
    /// What is there is no directory.
    NotDirectory(String),
    /// What is there is no text.
    Unreadable(String),
    /// Nothing can be written there.
    Unwritable(String),
}

impl FileFault {
    /// What a model is told.
    pub fn message(&self) -> (s: String)
        ensures
            s@ == (match *self {
                FileFault::Missing(path) => "path does not exist: "@ + path@,
                FileFault::NotDirectory(path) => text::quoted(path@) + " is not a directory"@,
                FileFault::Unreadable(path) => path@ + " is not a readable UTF-8 file"@,
                FileFault::Unwritable(path) => "cannot write "@ + path@,
            }),
    {
        match self {
            FileFault::Missing(path) => text::cat2("path does not exist: ", path),
            FileFault::NotDirectory(path) => text::cat2(
                &text::quote(path),
                " is not a directory",
            ),
            FileFault::Unreadable(path) => text::cat2(path, " is not a readable UTF-8 file"),
            FileFault::Unwritable(path) => text::cat2("cannot write ", path),
        }
    }
}

// ---------------------------------------------------------------------------
// Answers

/// Some texts.
pub open spec fn texts(v: Seq<Seq<char>>) -> JsonView {
    JsonView::Array(Seq::new(v.len(), |i: int| JsonView::Text(v[i])))
}

/// What is answered of the files of a directory.
pub open spec fn listing_fields(entries: Seq<Seq<char>>, truncated: bool) -> payload::Fields {
    seq![("entries"@, texts(entries)), ("truncated"@, JsonView::Bool(truncated))]
}

/// What is answered of the files of a directory.
pub fn listing(entries: &Vec<String>, truncated: bool) -> (r: Json)
    ensures
        r@ == JsonView::Object(listing_fields(text::views(entries@), truncated)),
{
    let ghost all = Seq::new(entries@.len(), |i: int| JsonView::Text(entries@[i]@));
    let mut items = json::no_items();
    let mut i: usize = 0;
    assert(json::item_views(items@) == all.take(0));
    while i < entries.len()
        invariant
            i <= entries@.len(),
            all == Seq::new(entries@.len(), |i: int| JsonView::Text(entries@[i]@)),
            json::item_views(items@) == all.take(i as int),
        decreases entries@.len() - i,
    {
        items = json::with_item(items, json::text_value(&entries[i]));
        assert(all.take(i + 1) == all.take(i as int).push(all[i as int]));
        i += 1;
    }
    assert(all.take(i as int) == all);
    assert(texts(text::views(entries@)) == JsonView::Array(all)) by {
        assert(Seq::new(
            text::views(entries@).len(),
            |i: int| JsonView::Text(text::views(entries@)[i]),
        ) == all);
    }
    let f = json::with_field(json::no_fields(), "entries", Json::Array(items));
    let f = json::with_field(f, "truncated", Json::Bool(truncated));
    assert(json::field_views(f@) == listing_fields(text::views(entries@), truncated));
    Json::Object(f)
}

/// What is answered of a part of a file.
pub open spec fn excerpt_fields(e: Excerpt) -> payload::Fields {
    seq![
        ("content"@, JsonView::Text(e.content@)),
        ("end_line"@, schema::integer(e.end_line)),
        ("start_line"@, schema::integer(e.start_line)),
        ("total_lines"@, schema::integer(e.total_lines as u64)),
    ]
}

fn number(n: u64) -> (r: Json)
    ensures
        r@ == schema::integer(n),
{
    Json::Number(JsonNumber::Unsigned(n))
}

/// What is answered of a part of a file.
pub fn excerpt(e: &Excerpt) -> (r: Json)
    ensures
        r@ == JsonView::Object(excerpt_fields(*e)),
{
    let f = json::with_field(json::no_fields(), "content", json::text_value(&e.content));
    let f = json::with_field(f, "end_line", number(e.end_line));
    let f = json::with_field(f, "start_line", number(e.start_line));
    let f = json::with_field(f, "total_lines", number(e.total_lines as u64));
    assert(json::field_views(f@) == excerpt_fields(*e));
    Json::Object(f)
}

/// What is answered of a line that was found.
pub open spec fn match_fields(m: MatchView) -> payload::Fields {
    seq![
        ("line"@, schema::integer(m.line as u64)),
        ("path"@, JsonView::Text(m.path)),
        ("text"@, JsonView::Text(m.text)),
    ]
}

/// What is answered of a search.
pub open spec fn search_fields(found: Seq<MatchView>, truncated: bool) -> payload::Fields {
    seq![
        (
            "matches"@,
            JsonView::Array(
                Seq::new(found.len(), |i: int| JsonView::Object(match_fields(found[i]))),
            ),
        ),
        ("truncated"@, JsonView::Bool(truncated)),
    ]
}

fn found_line(m: &SearchMatch) -> (r: Json)
    ensures
        r@ == JsonView::Object(match_fields(m@)),
{
    let f = json::with_field(json::no_fields(), "line", number(m.line as u64));
    let f = json::with_field(f, "path", json::text_value(&m.path));
    let f = json::with_field(f, "text", json::text_value(&m.text));
    assert(json::field_views(f@) == match_fields(m@));
    Json::Object(f)
}

/// What is answered of a search.
pub fn search_result(found: &Vec<SearchMatch>, truncated: bool) -> (r: Json)
    ensures
        r@ == JsonView::Object(search_fields(tools::match_views(found@), truncated)),
{
    let ghost views = tools::match_views(found@);
    let ghost all = Seq::new(views.len(), |i: int| JsonView::Object(match_fields(views[i])));
    let mut items = json::no_items();
    let mut i: usize = 0;
    assert(json::item_views(items@) == all.take(0));
    while i < found.len()
        invariant
            i <= found@.len(),
            views == tools::match_views(found@),
            all == Seq::new(views.len(), |i: int| JsonView::Object(match_fields(views[i]))),
            json::item_views(items@) == all.take(i as int),
        decreases found@.len() - i,
    {
        items = json::with_item(items, found_line(&found[i]));
        assert(all.take(i + 1) == all.take(i as int).push(all[i as int]));
        i += 1;
    }
    assert(all.take(i as int) == all);
    let f = json::with_field(json::no_fields(), "matches", Json::Array(items));
    let f = json::with_field(f, "truncated", Json::Bool(truncated));
    assert(json::field_views(f@) == search_fields(views, truncated));
    Json::Object(f)
}

/// What is answered of a replacement.
pub fn replaced(path: &str) -> (r: Json)
    ensures
        r@ == JsonView::Object(
            seq![("path"@, JsonView::Text(path@)), ("replacements"@, schema::integer(1))],
        ),
{
    let f = json::with_field(json::no_fields(), "path", json::text_value(path));
    let f = json::with_field(f, "replacements", number(1));
    assert(json::field_views(f@) == seq![
        ("path"@, JsonView::Text(path@)),
        ("replacements"@, schema::integer(1)),
    ]);
    Json::Object(f)
}

/// How much is answered of what a command wrote.
pub const MAX_OUTPUT: usize = 30_000;

/// The status that a command left.
pub open spec fn status_view(code: Option<i32>) -> JsonView {
    match code {
        None => JsonView::Null,
        Some(n) => if n < 0 {
            JsonView::Number(NumberView::Negative(n as i64))
        } else {
            JsonView::Number(NumberView::Unsigned(n as u64))
        },
    }
}

fn status_value(code: Option<i32>) -> (r: Json)
    ensures
        r@ == status_view(code),
{
    match code {
        None => Json::Null,
        Some(n) => if n < 0 {
            Json::Number(JsonNumber::Negative(n as i64))
        } else {
            Json::Number(JsonNumber::Unsigned(n as u64))
        },
    }
}

/// What is answered of a command.
pub open spec fn command_fields(
    code: Option<i32>,
    timed_out: bool,
    stdout: Seq<char>,
    stderr: Seq<char>,
) -> payload::Fields {
    seq![
        ("exit_code"@, status_view(code)),
        ("stderr"@, JsonView::Text(tools::truncated(stderr, MAX_OUTPUT as nat))),
        ("stdout"@, JsonView::Text(tools::truncated(stdout, MAX_OUTPUT as nat))),
        ("timed_out"@, JsonView::Bool(timed_out)),
    ]
}

/// What is answered of a command: its status, whether it was stopped because it took too long, and
/// what it wrote.
pub fn shell_noninteractive(
    code: Option<i32>,
    timed_out: bool,
    stdout: String,
    stderr: String,
) -> (r: Json)
    ensures
        r@ == JsonView::Object(command_fields(code, timed_out, stdout@, stderr@)),
{
    let ghost out = stdout@;
    let ghost err = stderr@;
    let stdout = tools::truncate(stdout, MAX_OUTPUT);
    let stderr = tools::truncate(stderr, MAX_OUTPUT);
    let f = json::with_field(json::no_fields(), "exit_code", status_value(code));
    let f = json::with_field(f, "stderr", json::text_value(&stderr));
    let f = json::with_field(f, "stdout", json::text_value(&stdout));
    let f = json::with_field(f, "timed_out", Json::Bool(timed_out));
    assert(json::field_views(f@) == command_fields(code, timed_out, out, err));
    Json::Object(f)
}

// ---------------------------------------------------------------------------
// Laws
/// A tool does what it is asked for, with what it is given under the names of its arguments.
pub proof fn tools_do_what_they_are_asked_for(
    args: JsonView,
    path: Seq<char>,
    content: Seq<char>,
    old_text: Seq<char>,
    new_text: Seq<char>,
)
    requires
        args.text_field("path"@) == Some(path),
    ensures
        asked(ToolName::ReadFile, args) == Ok::<ToolActionView, Seq<char>>(
            ToolActionView::ReadFile { path, args },
        ),
        args.text_field("content"@) == Some(content) ==> asked(ToolName::WriteFile, args) == Ok::<
            ToolActionView,
            Seq<char>,
        >(ToolActionView::WriteFile { path, content }),
        args.text_field("old"@) == Some(old_text) && args.text_field("new"@) == Some(new_text)
            && old_text.len() > 0 ==> asked(ToolName::ReplaceInFile, args) == Ok::<
            ToolActionView,
            Seq<char>,
        >(ToolActionView::ReplaceInFile { path, old_text, new_text }),
        args.text_field("query"@) == Some(content) && content.len() > 0 ==> asked(
            ToolName::Search,
            args,
        ) == Ok::<ToolActionView, Seq<char>>(ToolActionView::Search { query: content, path }),
        asked(ToolName::ListFiles, args) matches Ok(ToolActionView::ListFiles { path: p, .. }) && p
            == path,
{
}

/// Commands and terminals are those that are named.
pub proof fn commands_and_terminals_are_those_named(
    args: JsonView,
    command: Seq<char>,
    terminal: Seq<char>,
    actions: Seq<JsonView>,
)
    ensures
        args.text_field("command"@) == Some(command) ==> asked(ToolName::Shell, args) == Ok::<
            ToolActionView,
            Seq<char>,
        >(ToolActionView::Shell { command }) && (asked(ToolName::ShellNoninteractive, args) matches Ok(
            ToolActionView::ShellNoninteractive { command: c, .. },
        ) && c == command),
        args.text_field("terminal_id"@) == Some(terminal) ==> asked(ToolName::TerminalRead, args)
            == Ok::<ToolActionView, Seq<char>>(
            ToolActionView::TerminalRead { terminal_id: terminal },
        ) && asked(ToolName::TerminalClose, args) == Ok::<ToolActionView, Seq<char>>(
            ToolActionView::TerminalClose { terminal_id: terminal },
        ),
        args.text_field("terminal_id"@) == Some(terminal) && args.field("actions"@) == Some(
            JsonView::Array(actions),
        ) ==> asked(ToolName::TerminalInput, args) == Ok::<ToolActionView, Seq<char>>(
            ToolActionView::TerminalInput { terminal_id: terminal, actions },
        ),
        asked(ToolName::TerminalList, args) == Ok::<ToolActionView, Seq<char>>(
            ToolActionView::TerminalList,
        ),
{
}

/// Without what it needs, a tool does nothing.
pub proof fn tools_need_their_arguments(args: JsonView)
    ensures
        args.text_field("path"@) is None ==> asked(ToolName::ReadFile, args) is Err && asked(
            ToolName::WriteFile,
            args,
        ) is Err && asked(ToolName::ReplaceInFile, args) is Err,
        args.text_field("content"@) is None ==> asked(ToolName::WriteFile, args) is Err,
        args.text_field("old"@) is None || args.text_field("new"@) is None ==> asked(
            ToolName::ReplaceInFile,
            args,
        ) is Err,
        (args.text_field("old"@) matches Some(o) && o.len() == 0) ==> asked(
            ToolName::ReplaceInFile,
            args,
        ) is Err,
        args.text_field("query"@) is None ==> asked(ToolName::Search, args) is Err,
        (args.text_field("query"@) matches Some(q) && q.len() == 0) ==> asked(
            ToolName::Search,
            args,
        ) is Err,
        args.text_field("command"@) is None ==> asked(ToolName::Shell, args) is Err && asked(
            ToolName::ShellNoninteractive,
            args,
        ) is Err,
        args.text_field("terminal_id"@) is None ==> asked(ToolName::TerminalRead, args) is Err
            && asked(ToolName::TerminalClose, args) is Err && asked(
            ToolName::TerminalInput,
            args,
        ) is Err,
        args.text_field("path"@) is None ==> (asked(ToolName::ListFiles, args) matches Ok(
            ToolActionView::ListFiles { path, .. },
        ) && path == "."@),
{
}

/// A part of a file is answered with its text, its first and last line and the number of all lines.
pub proof fn a_part_of_a_file_is_answered(e: Excerpt)
    ensures
        ({
            let a = JsonView::Object(excerpt_fields(e));
            &&& a.text_field("content"@) == Some(e.content@)
            &&& a.unsigned_field("start_line"@) == Some(e.start_line)
            &&& a.unsigned_field("end_line"@) == Some(e.end_line)
            &&& a.unsigned_field("total_lines"@) == Some(e.total_lines as u64)
        }),
{
    reveal_with_fuel(json::field_position, 5);
    reveal_strlit("content");
    reveal_strlit("start_line");
    reveal_strlit("end_line");
    reveal_strlit("total_lines");
    assert("content"@.len() == 7 && "start_line"@.len() == 10 && "end_line"@.len() == 8
        && "total_lines"@.len() == 11);
}

/// Every line that was found is answered, with its path, its number and its text, and so is whether
/// there are more.
pub proof fn every_line_found_is_answered(found: Seq<MatchView>, truncated: bool, i: int)
    requires
        0 <= i < found.len(),
    ensures
        ({
            let a = JsonView::Object(search_fields(found, truncated));
            &&& a.field("truncated"@) == Some(JsonView::Bool(truncated))
            &&& (a.field("matches"@) matches Some(JsonView::Array(m)) && m.len() == found.len()
                && m[i].text_field("path"@) == Some(found[i].path) && m[i].text_field("text"@)
                == Some(found[i].text) && m[i].unsigned_field("line"@) == Some(
                found[i].line as u64,
            ))
        }),
{
    reveal_with_fuel(json::field_position, 4);
    reveal_strlit("truncated");
    reveal_strlit("matches");
    reveal_strlit("path");
    reveal_strlit("text");
    reveal_strlit("line");
    assert("truncated"@.len() == 9 && "matches"@.len() == 7 && "path"@.len() == 4 && "text"@.len()
        == 4 && "line"@.len() == 4);
    assert("path"@[0] == 'p' && "text"@[0] == 't' && "line"@[0] == 'l');
}

/// Every entry of a directory is answered, and whether there are more.
pub proof fn every_entry_is_answered(entries: Seq<Seq<char>>, truncated: bool, i: int)
    requires
        0 <= i < entries.len(),
    ensures
        ({
            let a = JsonView::Object(listing_fields(entries, truncated));
            &&& a.field("truncated"@) == Some(JsonView::Bool(truncated))
            &&& (a.field("entries"@) matches Some(JsonView::Array(m)) && m.len() == entries.len()
                && m[i].text() == Some(entries[i]))
        }),
{
    reveal_with_fuel(json::field_position, 3);
    reveal_strlit("truncated");
    reveal_strlit("entries");
    assert("truncated"@.len() == 9 && "entries"@.len() == 7);
}

/// A command is answered with its status, whether it took too long, and what it wrote to each of its
/// outputs, whole where that is not too much.
pub proof fn a_command_is_answered(
    code: Option<i32>,
    timed_out: bool,
    stdout: Seq<char>,
    stderr: Seq<char>,
)
    ensures
        ({
            let a = JsonView::Object(command_fields(code, timed_out, stdout, stderr));
            &&& a.field("timed_out"@) == Some(JsonView::Bool(timed_out))
            &&& a.text_field("stdout"@) == Some(tools::truncated(stdout, 30_000))
            &&& a.text_field("stderr"@) == Some(tools::truncated(stderr, 30_000))
            &&& code is None ==> a.field("exit_code"@) == Some(JsonView::Null)
            &&& (code matches Some(n) ==> n >= 0 ==> a.unsigned_field("exit_code"@) == Some(
                n as u64,
            ))
            &&& (code matches Some(n) ==> n < 0 ==> a.field("exit_code"@) == Some(
                JsonView::Number(NumberView::Negative(n as i64)),
            ))
        }),
{
    reveal_with_fuel(json::field_position, 5);
    reveal_strlit("exit_code");
    reveal_strlit("stderr");
    reveal_strlit("stdout");
    reveal_strlit("timed_out");
    assert("exit_code"@.len() == 9 && "stderr"@.len() == 6 && "stdout"@.len() == 6
        && "timed_out"@.len() == 9);
    assert("stderr"@[3] == 'e' && "stdout"@[3] == 'o' && "exit_code"@[0] == 'e' && "timed_out"@[0]
        == 't');
}

} // verus!
