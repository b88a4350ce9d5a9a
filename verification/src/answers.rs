//! What the tools on terminals answer.
use crate::json;
use crate::json::{Json, JsonNumber, JsonView, NumberView};
use crate::payload;
use crate::schedule;
use crate::screen::{ObservationClassification, TerminalProcessState, TerminalRecord};
use crate::terminal;
use vstd::prelude::*;
use vstd::string::*;

verus! {

/// What is said of what an observation saw.
pub open spec fn observation_text(o: ObservationClassification) -> Seq<char> {
    match o {
        ObservationClassification::Unchanged => "unchanged"@,
        ObservationClassification::ChangedThenStabilized => "changed_then_stabilized"@,
        ObservationClassification::StillChangingAtDeadline => "still_changing_at_deadline"@,
    }
}

/// What is said of what an observation saw.
pub fn observation_name(o: ObservationClassification) -> (s: &'static str)
    ensures
        s@ == observation_text(o),
{
    match o {
        ObservationClassification::Unchanged => "unchanged",
        ObservationClassification::ChangedThenStabilized => "changed_then_stabilized",
        ObservationClassification::StillChangingAtDeadline => "still_changing_at_deadline",
    }
}

/// The status that a process left.
pub open spec fn code_view(code: Option<u32>) -> JsonView {
    match code {
        Some(n) => JsonView::Number(NumberView::Unsigned(n as u64)),
        None => JsonView::Null,
    }
}

fn code_value(code: Option<u32>) -> (r: Json)
    ensures
        r@ == code_view(code),
{
    match code {
        Some(n) => Json::Number(JsonNumber::Unsigned(n as u64)),
        None => Json::Null,
    }
}

/// What is answered of a command that has ended.
pub open spec fn ended_fields(r: TerminalRecord) -> payload::Fields {
    seq![
        ("exit_code"@, code_view(r.exit_code)),
        ("observation"@, JsonView::Text(observation_text(r.latest_observation))),
        ("state"@, JsonView::Text(terminal::state_text(r.state))),
        ("text"@, JsonView::Text(r.recent_transcript@)),
    ]
}

/// What is answered of a command that goes on.
pub open spec fn started_fields(r: TerminalRecord, screen: JsonView) -> payload::Fields {
    seq![
        ("command"@, JsonView::Text(r.command@)),
        ("observation"@, JsonView::Text(observation_text(r.latest_observation))),
        ("recent_transcript"@, JsonView::Text(r.recent_transcript@)),
        ("screen"@, screen),
        ("state"@, JsonView::Text(terminal::state_text(r.state))),
        ("terminal_id"@, JsonView::Text(r.id@)),
    ]
}

/// What is answered of a terminal that was looked at.
pub open spec fn observed_fields(r: TerminalRecord, screen: JsonView) -> payload::Fields {
    seq![
        ("observation"@, JsonView::Text(observation_text(r.latest_observation))),
        ("recent_transcript"@, JsonView::Text(r.recent_transcript@)),
        ("screen"@, screen),
        ("state"@, JsonView::Text(terminal::state_text(r.state))),
        ("terminal_id"@, JsonView::Text(r.id@)),
    ]
}

/// What is answered of a terminal that was closed.
pub open spec fn closed_fields(r: TerminalRecord) -> payload::Fields {
    seq![
        ("exit_code"@, code_view(r.exit_code)),
        ("state"@, JsonView::Text(terminal::state_text(r.state))),
        ("terminal_id"@, JsonView::Text(r.id@)),
    ]
}

/// What is answered of a new command: what it wrote where it has ended, and else its terminal with
/// the screen.
pub fn shell(record: &TerminalRecord, screen: Json) -> (r: Json)
    ensures
        r@ == (if record.state == TerminalProcessState::Exited {
            JsonView::Object(ended_fields(*record))
        } else {
            JsonView::Object(started_fields(*record, screen@))
        }),
{
    let observation = observation_name(record.latest_observation);
    let state = terminal::state_name(record.state);
    if record.state == TerminalProcessState::Exited {
        let f = json::with_field(json::no_fields(), "exit_code", code_value(record.exit_code));
        let f = json::with_field(f, "observation", json::text_value(observation));
        let f = json::with_field(f, "state", json::text_value(state));
        let f = json::with_field(f, "text", json::text_value(&record.recent_transcript));
        assert(json::field_views(f@) == ended_fields(*record));
        Json::Object(f)
    } else {
        let ghost seen = screen@;
        let f = json::with_field(json::no_fields(), "command", json::text_value(&record.command));
        let f = json::with_field(f, "observation", json::text_value(observation));
        let f = json::with_field(
            f,
            "recent_transcript",
            json::text_value(&record.recent_transcript),
        );
        let f = json::with_field(f, "screen", screen);
        let f = json::with_field(f, "state", json::text_value(state));
        let f = json::with_field(f, "terminal_id", json::text_value(&record.id));
        assert(json::field_views(f@) == started_fields(*record, seen));
        Json::Object(f)
    }
}

/// What is answered of a terminal that was looked at.
pub fn terminal_observation_value(record: &TerminalRecord, screen: Json) -> (r: Json)
    ensures
        r@ == JsonView::Object(observed_fields(*record, screen@)),
{
    let ghost seen = screen@;
    let f = json::with_field(
        json::no_fields(),
        "observation",
        json::text_value(observation_name(record.latest_observation)),
    );
    let f = json::with_field(f, "recent_transcript", json::text_value(&record.recent_transcript));
    let f = json::with_field(f, "screen", screen);
    let f = json::with_field(f, "state", json::text_value(terminal::state_name(record.state)));
    let f = json::with_field(f, "terminal_id", json::text_value(&record.id));
    assert(json::field_views(f@) == observed_fields(*record, seen));
    Json::Object(f)
}

/// What is answered of a terminal that was closed.
pub fn close(record: &TerminalRecord) -> (r: Json)
    ensures
        r@ == JsonView::Object(closed_fields(*record)),
{
    let f = json::with_field(json::no_fields(), "exit_code", code_value(record.exit_code));
    let f = json::with_field(f, "state", json::text_value(terminal::state_name(record.state)));
    let f = json::with_field(f, "terminal_id", json::text_value(&record.id));
    assert(json::field_views(f@) == closed_fields(*record));
    Json::Object(f)
}

/// A time that may not have come.
pub open spec fn time_view(at: Option<i128>) -> JsonView {
    match at {
        Some(i) => JsonView::Text(schedule::utc_timestamp(i as int)),
        None => JsonView::Null,
    }
}

/// Do the times of a terminal have calendar dates?
pub open spec fn has_dates(r: TerminalRecord) -> bool {
    &&& schedule::is_instant(r.created_at as int)
    &&& schedule::is_instant(r.updated_at as int)
    &&& r.completed_at matches Some(i) ==> schedule::is_instant(i as int)
}

/// What is answered of a terminal in a list.
pub open spec fn listed_fields(r: TerminalRecord) -> payload::Fields {
    seq![
        ("columns"@, JsonView::Number(NumberView::Unsigned(r.columns as u64))),
        ("command"@, JsonView::Text(r.command@)),
        ("completed_at"@, time_view(r.completed_at)),
        ("created_at"@, JsonView::Text(schedule::utc_timestamp(r.created_at as int))),
        ("exit_code"@, code_view(r.exit_code)),
        ("rows"@, JsonView::Number(NumberView::Unsigned(r.rows as u64))),
        ("shell"@, JsonView::Text(r.shell@)),
        ("state"@, JsonView::Text(terminal::state_text(r.state))),
        ("terminal_id"@, JsonView::Text(r.id@)),
        ("updated_at"@, JsonView::Text(schedule::utc_timestamp(r.updated_at as int))),
    ]
}

fn listed(r: &TerminalRecord) -> (v: Json)
    requires
        has_dates(*r),
    ensures
        v@ == JsonView::Object(listed_fields(*r)),
{
    let completed_at = match r.completed_at {
        Some(i) => json::text_value(&schedule::utc_text(i)),
        None => Json::Null,
    };
    let created_at = schedule::utc_text(r.created_at);
    let updated_at = schedule::utc_text(r.updated_at);
    let columns = Json::Number(JsonNumber::Unsigned(r.columns as u64));
    let rows = Json::Number(JsonNumber::Unsigned(r.rows as u64));
    let f = json::with_field(json::no_fields(), "columns", columns);
    let f = json::with_field(f, "command", json::text_value(&r.command));
    let f = json::with_field(f, "completed_at", completed_at);
    let f = json::with_field(f, "created_at", json::text_value(&created_at));
    let f = json::with_field(f, "exit_code", code_value(r.exit_code));
    let f = json::with_field(f, "rows", rows);
    let f = json::with_field(f, "shell", json::text_value(&r.shell));
    let f = json::with_field(f, "state", json::text_value(terminal::state_name(r.state)));
    let f = json::with_field(f, "terminal_id", json::text_value(&r.id));
    let f = json::with_field(f, "updated_at", json::text_value(&updated_at));
    assert(json::field_views(f@) == listed_fields(*r));
    Json::Object(f)
}

/// What is answered of all terminals.
pub fn list(records: &Vec<&TerminalRecord>) -> (r: Json)
    requires
        forall|i: int| 0 <= i < records@.len() ==> has_dates(*#[trigger] records@[i]),
    ensures
        r@ == JsonView::Object(
            seq![
                (
                    "terminals"@,
                    JsonView::Array(
                        Seq::new(
                            records@.len(),
                            |i: int| JsonView::Object(listed_fields(*records@[i])),
                        ),
                    ),
                ),
            ],
        ),
{
    let mut items: Vec<Json> = Vec::new();
    let mut i: usize = 0;
    let ghost all = Seq::new(
        records@.len(),
        |i: int| JsonView::Object(listed_fields(*records@[i])),
    );
    assert(json::item_views(items@) == all.take(0));
    while i < records.len()
        invariant
            i <= records@.len(),
            all == Seq::new(
                records@.len(),
                |i: int| JsonView::Object(listed_fields(*records@[i])),
            ),
            json::item_views(items@) == all.take(i as int),
            forall|i: int| 0 <= i < records@.len() ==> has_dates(*#[trigger] records@[i]),
        decreases records@.len() - i,
    {
        items = json::with_item(items, listed(records[i]));
        assert(all.take(i + 1) == all.take(i as int).push(all[i as int]));
        i += 1;
    }
    assert(all.take(i as int) == all);
    let f = json::with_field(json::no_fields(), "terminals", Json::Array(items));
    assert(json::field_views(f@) == seq![("terminals"@, JsonView::Array(all))]);
    Json::Object(f)
}

/// What is said of a terminal that runs.
#[derive(Debug)]
pub struct ProcessSummary {
    pub terminal_id: String,
    pub command: String,
    pub created_at: i128,
}

/// What is said of the terminals that run, in their order.
pub fn list_processes(running: &Vec<&TerminalRecord>) -> (r: Vec<ProcessSummary>)
    ensures
        r@.len() == running@.len(),
        forall|i: int|
            0 <= i < running@.len() ==> {
                &&& (#[trigger] r@[i]).terminal_id == running@[i].id
                &&& r@[i].command == running@[i].command
                &&& r@[i].created_at == running@[i].created_at
            },
{
    let mut r: Vec<ProcessSummary> = Vec::new();
    let mut i: usize = 0;
    while i < running.len()
        invariant
            i <= running@.len(),
            r@.len() == i,
            forall|j: int|
                0 <= j < i ==> {
                    &&& (#[trigger] r@[j]).terminal_id == running@[j].id
                    &&& r@[j].command == running@[j].command
                    &&& r@[j].created_at == running@[j].created_at
                },
        decreases running@.len() - i,
    {
        r.push(
            ProcessSummary {
                terminal_id: running[i].id.clone(),
                command: running[i].command.clone(),
                created_at: running[i].created_at,
            },
        );
        i += 1;
    }
    r
}

/// The first of the results from `i` on that is an error.
pub open spec fn first_failure(results: Seq<Result<(), String>>, i: int) -> Result<(), String>
    decreases results.len() - i,
{
    if i >= results.len() {
        Ok(())
    } else if results[i] is Err {
        results[i]
    } else {
        first_failure(results, i + 1)
    }
}

/// What comes of closing all terminals: the first error, where there is any. All are closed either
/// way.
pub fn close_all(results: &Vec<Result<(), String>>) -> (r: Result<(), String>)
    ensures
        r == first_failure(results@, 0),
{
    let mut i: usize = 0;
    while i < results.len()
        invariant
            i <= results@.len(),
            first_failure(results@, 0) == first_failure(results@, i as int),
        decreases results@.len() - i,
    {
        if let Err(e) = &results[i] {
            return Err(e.clone());
        }
        i += 1;
    }
    Ok(())
}

// ---------------------------------------------------------------------------
// Laws
proof fn lemma_names()
    ensures
        "exit_code"@.len() == 9,
        "observation"@.len() == 11,
        "state"@.len() == 5,
        "text"@.len() == 4,
        "command"@.len() == 7,
        "recent_transcript"@.len() == 17,
        "screen"@.len() == 6,
        "terminal_id"@.len() == 11,
        "columns"@.len() == 7,
        "completed_at"@.len() == 12,
        "created_at"@.len() == 10,
        "rows"@.len() == 4,
        "shell"@.len() == 5,
        "updated_at"@.len() == 10,
        "terminal_id"@[0] == 't',
        "observation"@[0] == 'o',
        "columns"@[2] == 'l',
        "command"@[2] == 'm',
        "created_at"@[0] == 'c',
        "updated_at"@[0] == 'u',
        "shell"@[1] == 'h',
        "state"@[1] == 't',
{
    reveal_strlit("exit_code");
    reveal_strlit("observation");
    reveal_strlit("state");
    reveal_strlit("text");
    reveal_strlit("command");
    reveal_strlit("recent_transcript");
    reveal_strlit("screen");
    reveal_strlit("terminal_id");
    reveal_strlit("columns");
    reveal_strlit("completed_at");
    reveal_strlit("created_at");
    reveal_strlit("rows");
    reveal_strlit("shell");
    reveal_strlit("updated_at");
}

/// What is answered of a terminal says what it is and how it is: which one, how far, what it wrote and
/// what is seen of it.
pub proof fn answers_say_how_a_terminal_is(r: TerminalRecord, screen: JsonView)
    ensures
        ({
            let a = JsonView::Object(ended_fields(r));
            &&& a.text_field("text"@) == Some(r.recent_transcript@)
            &&& a.text_field("state"@) == Some(terminal::state_text(r.state))
            &&& a.text_field("observation"@) == Some(observation_text(r.latest_observation))
            &&& r.exit_code matches Some(n) ==> a.unsigned_field("exit_code"@) == Some(n as u64)
            &&& r.exit_code is None ==> a.field("exit_code"@) == Some(JsonView::Null)
        }),
        ({
            let a = JsonView::Object(started_fields(r, screen));
            &&& a.text_field("command"@) == Some(r.command@)
            &&& a.text_field("terminal_id"@) == Some(r.id@)
            &&& a.text_field("recent_transcript"@) == Some(r.recent_transcript@)
            &&& a.text_field("state"@) == Some(terminal::state_text(r.state))
            &&& a.text_field("observation"@) == Some(observation_text(r.latest_observation))
            &&& a.field("screen"@) == Some(screen)
        }),
        ({
            let a = JsonView::Object(observed_fields(r, screen));
            &&& a.text_field("terminal_id"@) == Some(r.id@)
            &&& a.text_field("recent_transcript"@) == Some(r.recent_transcript@)
            &&& a.text_field("state"@) == Some(terminal::state_text(r.state))
            &&& a.text_field("observation"@) == Some(observation_text(r.latest_observation))
            &&& a.field("screen"@) == Some(screen)
        }),
        ({
            let a = JsonView::Object(closed_fields(r));
            &&& a.text_field("terminal_id"@) == Some(r.id@)
            &&& a.text_field("state"@) == Some(terminal::state_text(r.state))
            &&& r.exit_code matches Some(n) ==> a.unsigned_field("exit_code"@) == Some(n as u64)
        }),
{
    lemma_names();
    reveal_with_fuel(json::field_position, 7);
}

/// A terminal in a list is told with its command, its size, its shell, its times and how far it is.
pub proof fn a_list_says_how_terminals_are(r: TerminalRecord)
    ensures
        ({
            let a = JsonView::Object(listed_fields(r));
            &&& a.text_field("terminal_id"@) == Some(r.id@)
            &&& a.text_field("command"@) == Some(r.command@)
            &&& a.text_field("shell"@) == Some(r.shell@)
            &&& a.text_field("state"@) == Some(terminal::state_text(r.state))
            &&& a.unsigned_field("columns"@) == Some(r.columns as u64)
            &&& a.unsigned_field("rows"@) == Some(r.rows as u64)
            &&& a.text_field("created_at"@) == Some(schedule::utc_timestamp(r.created_at as int))
            &&& a.text_field("updated_at"@) == Some(schedule::utc_timestamp(r.updated_at as int))
            &&& r.completed_at matches Some(t) ==> a.text_field("completed_at"@) == Some(
                schedule::utc_timestamp(t as int),
            )
            &&& r.completed_at is None ==> a.field("completed_at"@) == Some(JsonView::Null)
            &&& r.exit_code matches Some(n) ==> a.unsigned_field("exit_code"@) == Some(n as u64)
        }),
{
    lemma_names();
    reveal_with_fuel(json::field_position, 11);
}

/// No two observations are called alike.
pub proof fn observations_have_their_own_names(
    a: ObservationClassification,
    b: ObservationClassification,
)
    ensures
        observation_text(a) == observation_text(b) ==> a == b,
{
    reveal_strlit("unchanged");
    reveal_strlit("changed_then_stabilized");
    reveal_strlit("still_changing_at_deadline");
    assert("unchanged"@.len() == 9 && "changed_then_stabilized"@.len() == 23
        && "still_changing_at_deadline"@.len() == 26);
}

/// All went well exactly where nothing went wrong; else the first thing that did is told.
pub proof fn the_first_failure_is_told(results: Seq<Result<(), String>>, from: int, i: int)
    requires
        0 <= from <= i <= results.len(),
        forall|j: int| from <= j < i ==> (#[trigger] results[j]) is Ok,
        i < results.len() ==> results[i] is Err,
    ensures
        i < results.len() ==> first_failure(results, from) == results[i],
        i == results.len() ==> first_failure(results, from) is Ok,
    decreases i - from,
{
    if from < i {
        assert(results[from] is Ok);
        the_first_failure_is_told(results, from + 1, i);
    }
}

} // verus!
