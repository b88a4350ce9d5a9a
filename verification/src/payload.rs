//! What is sent to a model.
use crate::ids;
use crate::json;
use crate::json::{Json, JsonView};
use crate::message;
use crate::message::{Message, MessageView, Role, ToolCall, ToolCallView};
use crate::text;
use vstd::prelude::*;
use vstd::string::*;

verus! {

/// The fields of a JSON object.
pub type Fields = Seq<(Seq<char>, JsonView)>;

/// A field, where it has a value.
pub open spec fn optional_field(name: Seq<char>, value: Option<JsonView>) -> Fields {
    match value {
        Some(v) => seq![(name, v)],
        None => Seq::empty(),
    }
}

/// An optional text as a JSON value.
pub open spec fn optional_text(s: Option<Seq<char>>) -> Option<JsonView> {
    match s {
        Some(t) => Some(JsonView::Text(t)),
        None => None,
    }
}

/// The text of a view of an optional text.
pub open spec fn str_view(s: Option<&str>) -> Option<Seq<char>> {
    match s {
        Some(t) => Some(t@),
        None => None,
    }
}

fn with_optional(fields: Vec<(String, Json)>, name: &str, value: Option<&str>) -> (r: Vec<(String, Json)>)
    ensures
        json::field_views(r@) == json::field_views(fields@) + optional_field(
            name@,
            optional_text(str_view(value)),
        ),
{
    let ghost before = json::field_views(fields@);
    match value {
        Some(t) => {
            let r = json::with_field(fields, name, json::text_value(t));
            assert(json::field_views(r@) == before + seq![(name@, JsonView::Text(t@))]);
            r
        },
        None => {
            assert(before + Seq::<(Seq<char>, JsonView)>::empty() == before);
            fields
        },
    }
}

fn borrowed(s: &Option<String>) -> (r: Option<&str>)
    ensures
        str_view(r) == message::opt_view(*s),
{
    match s {
        Some(t) => Some(t.as_str()),
        None => None,
    }
}

// ---------------------------------------------------------------------------
// Chat completions

/// What a role is called.
pub open spec fn role_text(role: Role) -> Seq<char> {
    match role {
        Role::System => "system"@,
        Role::User => "user"@,
        Role::Assistant => "assistant"@,
        Role::Tool => "tool"@,
    }
}

/// What a role is called.
pub fn role_name(role: Role) -> (s: &'static str)
    ensures
        s@ == role_text(role),
{
    match role {
        Role::System => "system",
        Role::User => "user",
        Role::Assistant => "assistant",
        Role::Tool => "tool",
    }
}

/// The fields of the function of a tool call, as sent.
pub open spec fn function_fields(call: ToolCallView) -> Fields {
    seq![
        ("arguments"@, JsonView::Text(call.arguments)),
        ("name"@, JsonView::Text(call.name)),
    ]
}

/// The fields of a tool call, as sent.
pub open spec fn call_fields(call: ToolCallView) -> Fields {
    seq![
        ("function"@, JsonView::Object(function_fields(call))),
        ("id"@, JsonView::Text(call.id)),
        ("type"@, JsonView::Text(call.kind)),
    ]
}

/// A tool call, as sent.
pub open spec fn call_value(call: ToolCallView) -> JsonView {
    JsonView::Object(call_fields(call))
}

/// Tool calls, as sent.
pub open spec fn call_values(calls: Seq<ToolCallView>) -> Seq<JsonView> {
    Seq::new(calls.len(), |i: int| call_value(calls[i]))
}

/// A message, as sent.
pub open spec fn message_value(m: MessageView) -> JsonView {
    JsonView::Object(
        optional_field("content"@, optional_text(m.content)) + seq![
            ("role"@, JsonView::Text(role_text(m.role))),
        ] + optional_field("tool_call_id"@, optional_text(m.tool_call_id)) + optional_field(
            "tool_calls"@,
            match m.tool_calls {
                Some(calls) => Some(JsonView::Array(call_values(calls))),
                None => None,
            },
        ),
    )
}

/// Messages, as sent.
pub open spec fn message_values(messages: Seq<MessageView>) -> Seq<JsonView> {
    Seq::new(messages.len(), |i: int| message_value(messages[i]))
}

/// A request for a chat completion.
pub open spec fn chat_request(
    model: Seq<char>,
    messages: Seq<MessageView>,
    tools: Seq<JsonView>,
    reasoning_effort: Option<Seq<char>>,
    service_tier: Option<Seq<char>>,
) -> JsonView {
    JsonView::Object(
        chat_head(model, messages) + optional_field(
            "reasoning_effort"@,
            optional_text(reasoning_effort),
        ) + optional_field("service_tier"@, optional_text(service_tier)) + chat_tail(tools),
    )
}

/// The first fields of a request for a chat completion.
pub open spec fn chat_head(model: Seq<char>, messages: Seq<MessageView>) -> Fields {
    seq![
        ("messages"@, JsonView::Array(message_values(messages))),
        ("model"@, JsonView::Text(model)),
        ("parallel_tool_calls"@, JsonView::Bool(true)),
    ]
}

/// The last fields of a request for a chat completion.
pub open spec fn chat_tail(tools: Seq<JsonView>) -> Fields {
    seq![
        ("stream"@, JsonView::Bool(true)),
        ("tool_choice"@, JsonView::Text("auto"@)),
        ("tools"@, JsonView::Array(tools)),
    ]
}

fn call_json(call: &ToolCall) -> (r: Json)
    ensures
        r@ == call_value(call@),
{
    let function = json::with_field(
        json::with_field(
            json::no_fields(),
            "arguments",
            json::text_value(&call.function.arguments),
        ),
        "name",
        json::text_value(&call.function.name),
    );
    assert(json::field_views(function@) == function_fields(call@));
    let fields = json::with_field(json::no_fields(), "function", Json::Object(function));
    let fields = json::with_field(fields, "id", json::text_value(&call.id));
    let fields = json::with_field(fields, "type", json::text_value(&call.kind));
    assert(json::field_views(fields@) == call_fields(call@));
    Json::Object(fields)
}

fn call_list(calls: &Vec<ToolCall>) -> (r: Vec<Json>)
    ensures
        json::item_views(r@) == call_values(message::call_views(calls@)),
{
    let ghost all = message::call_views(calls@);
    let mut r = json::no_items();
    let mut i: usize = 0;
    assert(call_values(all.take(0)) == Seq::<JsonView>::empty());
    while i < calls.len()
        invariant
            i <= calls@.len(),
            all == message::call_views(calls@),
            json::item_views(r@) == call_values(all.take(i as int)),
        decreases calls@.len() - i,
    {
        assert(all[i as int] == calls@[i as int]@);
        r = json::with_item(r, call_json(&calls[i]));
        assert(call_values(all.take(i + 1)) == call_values(all.take(i as int)).push(
            call_value(all[i as int]),
        ));
        i += 1;
    }
    assert(all.take(all.len() as int) == all);
    r
}

fn message_json(m: &Message) -> (r: Json)
    ensures
        r@ == message_value(m@),
{
    let fields = with_optional(json::no_fields(), "content", borrowed(&m.content));
    let ghost a = json::field_views(fields@);
    assert(a == optional_field("content"@, optional_text(m@.content)));
    let fields = json::with_field(fields, "role", json::text_value(role_name(m.role)));
    let ghost b = json::field_views(fields@);
    assert(b == a + seq![("role"@, JsonView::Text(role_text(m.role)))]);
    let mut fields = with_optional(fields, "tool_call_id", borrowed(&m.tool_call_id));
    let ghost c = json::field_views(fields@);
    match &m.tool_calls {
        Some(calls) => {
            fields = json::with_field(fields, "tool_calls", Json::Array(call_list(calls)));
            assert(json::field_views(fields@) == c + seq![
                ("tool_calls"@, JsonView::Array(call_values(message::call_views(calls@)))),
            ]);
        },
        None => {
            assert(c + Seq::<(Seq<char>, JsonView)>::empty() == c);
        },
    }
    Json::Object(fields)
}

fn message_list(messages: &Vec<Message>) -> (r: Vec<Json>)
    ensures
        json::item_views(r@) == message_values(message::message_views(messages@)),
{
    let ghost all = message::message_views(messages@);
    let mut r = json::no_items();
    let mut i: usize = 0;
    assert(message_values(all.take(0)) == Seq::<JsonView>::empty());
    while i < messages.len()
        invariant
            i <= messages@.len(),
            all == message::message_views(messages@),
            json::item_views(r@) == message_values(all.take(i as int)),
        decreases messages@.len() - i,
    {
        assert(all[i as int] == messages@[i as int]@);
        r = json::with_item(r, message_json(&messages[i]));
        assert(message_values(all.take(i + 1)) == message_values(all.take(i as int)).push(
            message_value(all[i as int]),
        ));
        i += 1;
    }
    assert(all.take(all.len() as int) == all);
    r
}

/// A request for a chat completion.
pub fn chat_payload(
    model: &str,
    messages: &Vec<Message>,
    tools: Vec<Json>,
    reasoning_effort: Option<&str>,
    service_tier: Option<&str>,
) -> (r: Json)
    ensures
        r@ == chat_request(
            model@,
            message::message_views(messages@),
            json::item_views(tools@),
            str_view(reasoning_effort),
            str_view(service_tier),
        ),
{
    let ghost tool_views = json::item_views(tools@);
    let fields = json::with_field(
        json::no_fields(),
        "messages",
        Json::Array(message_list(messages)),
    );
    let fields = json::with_field(fields, "model", json::text_value(model));
    let fields = json::with_field(fields, "parallel_tool_calls", Json::Bool(true));
    assert(json::field_views(fields@) == chat_head(model@, message::message_views(messages@)));
    let fields = with_optional(fields, "reasoning_effort", reasoning_effort);
    let fields = with_optional(fields, "service_tier", service_tier);
    let ghost head = json::field_views(fields@);
    let fields = json::with_field(fields, "stream", Json::Bool(true));
    let fields = json::with_field(fields, "tool_choice", json::text_value("auto"));
    let fields = json::with_field(fields, "tools", Json::Array(tools));
    assert(json::field_views(fields@) == head + chat_tail(tool_views));
    Json::Object(fields)
}

// ---------------------------------------------------------------------------
// Responses

/// What the first `n` system messages say.
pub open spec fn system_texts(messages: Seq<MessageView>, n: nat) -> Seq<Seq<char>>
    decreases n,
{
    if n == 0 {
        Seq::empty()
    } else {
        let before = system_texts(messages, (n - 1) as nat);
        if messages[n - 1].role == Role::System && messages[n - 1].content is Some {
            before.push(messages[n - 1].content->0)
        } else {
            before
        }
    }
}

/// A message item.
pub open spec fn text_item(role: Seq<char>, kind: Seq<char>, content: Seq<char>) -> JsonView {
    JsonView::Object(text_item_fields(role, kind, content))
}

/// The parts of a message item.
pub open spec fn text_parts(kind: Seq<char>, content: Seq<char>) -> Seq<JsonView> {
    seq![JsonView::Object(text_part_fields(kind, content))]
}

/// The fields of a part of a message item.
pub open spec fn text_part_fields(kind: Seq<char>, content: Seq<char>) -> Fields {
    seq![("text"@, JsonView::Text(content)), ("type"@, JsonView::Text(kind))]
}

/// The fields of a message item.
pub open spec fn text_item_fields(role: Seq<char>, kind: Seq<char>, content: Seq<char>) -> Fields {
    seq![
        ("content"@, JsonView::Array(text_parts(kind, content))),
        ("role"@, JsonView::Text(role)),
        ("type"@, JsonView::Text("message"@)),
    ]
}

/// The item of a tool call.
pub open spec fn call_item(call: ToolCallView) -> JsonView {
    JsonView::Object(call_item_fields(call))
}

/// The fields of the item of a tool call.
pub open spec fn call_item_fields(call: ToolCallView) -> Fields {
    seq![
        ("arguments"@, JsonView::Text(call.arguments)),
        ("call_id"@, JsonView::Text(call.id)),
        ("name"@, JsonView::Text(call.name)),
        ("type"@, JsonView::Text("function_call"@)),
    ]
}

/// The items of tool calls.
pub open spec fn call_items(calls: Seq<ToolCallView>) -> Seq<JsonView> {
    Seq::new(calls.len(), |i: int| call_item(calls[i]))
}

/// The item of what a tool gave back.
pub open spec fn output_item(call_id: Seq<char>, output: Seq<char>) -> JsonView {
    JsonView::Object(output_fields(call_id, output))
}

/// The fields of the item of what a tool gave back.
pub open spec fn output_fields(call_id: Seq<char>, output: Seq<char>) -> Fields {
    seq![
        ("call_id"@, JsonView::Text(call_id)),
        ("output"@, JsonView::Text(output)),
        ("type"@, JsonView::Text("function_call_output"@)),
    ]
}

/// The items of a message.
pub open spec fn items_of(m: MessageView) -> Seq<JsonView> {
    match m.role {
        Role::System => Seq::empty(),
        Role::User => match m.content {
            Some(content) => seq![text_item("user"@, "input_text"@, content)],
            None => Seq::empty(),
        },
        Role::Assistant => (match m.content {
            Some(content) => if content.len() == 0 {
                Seq::empty()
            } else {
                seq![text_item("assistant"@, "output_text"@, content)]
            },
            None => Seq::empty(),
        }) + (match m.tool_calls {
            Some(calls) => call_items(calls),
            None => Seq::empty(),
        }),
        Role::Tool => if m.tool_call_id is Some && m.content is Some {
            seq![output_item(m.tool_call_id->0, m.content->0)]
        } else {
            Seq::empty()
        },
    }
}

/// The items of the first `n` messages.
pub open spec fn input_items(messages: Seq<MessageView>, n: nat) -> Seq<JsonView>
    decreases n,
{
    if n == 0 {
        Seq::empty()
    } else {
        input_items(messages, (n - 1) as nat) + items_of(messages[n - 1])
    }
}

/// A field of a tool, or nothing.
pub open spec fn field_or_null(function: JsonView, name: Seq<char>) -> JsonView {
    match function.field(name) {
        Some(v) => v,
        None => JsonView::Null,
    }
}

/// A tool, as sent for a response.
pub open spec fn response_tool(function: JsonView) -> JsonView {
    JsonView::Object(response_tool_fields(function))
}

/// The fields of a tool, as sent for a response.
pub open spec fn response_tool_fields(function: JsonView) -> Fields {
    seq![
        ("description"@, field_or_null(function, "description"@)),
        ("name"@, field_or_null(function, "name"@)),
        ("parameters"@, field_or_null(function, "parameters"@)),
        ("strict"@, JsonView::Bool(false)),
        ("type"@, JsonView::Text("function"@)),
    ]
}

/// The first `n` tools, as sent for a response.
pub open spec fn response_tools(tools: Seq<JsonView>, n: nat) -> Seq<JsonView>
    decreases n,
{
    if n == 0 {
        Seq::empty()
    } else {
        let before = response_tools(tools, (n - 1) as nat);
        match tools[n - 1].field("function"@) {
            Some(function) => before.push(response_tool(function)),
            None => before,
        }
    }
}

/// A request for a response.
pub open spec fn response_request(
    model: Seq<char>,
    reasoning_effort: Option<Seq<char>>,
    service_tier: Option<Seq<char>>,
    messages: Seq<MessageView>,
    tools: Seq<JsonView>,
    session_id: u128,
) -> JsonView {
    JsonView::Object(
        response_head(model, reasoning_effort, messages, session_id) + optional_field(
            "service_tier"@,
            optional_text(service_tier),
        ) + response_tail(tools),
    )
}

/// What a request for a response says of the session.
pub open spec fn metadata_fields(session_id: u128) -> Fields {
    seq![("session_id"@, JsonView::Text(ids::id_view(session_id)))]
}

/// What a request for a response asks for besides.
pub open spec fn extras() -> Seq<JsonView> {
    seq![JsonView::Text("reasoning.encrypted_content"@)]
}

/// What a request for a response says of how the model thinks.
pub open spec fn reasoning_fields(reasoning_effort: Option<Seq<char>>) -> Fields {
    optional_field("effort"@, optional_text(reasoning_effort)) + seq![
        ("summary"@, JsonView::Text("auto"@)),
    ]
}

/// The first fields of a request for a response.
pub open spec fn response_head(
    model: Seq<char>,
    reasoning_effort: Option<Seq<char>>,
    messages: Seq<MessageView>,
    session_id: u128,
) -> Fields {
    seq![
        ("client_metadata"@, JsonView::Object(metadata_fields(session_id))),
        ("include"@, JsonView::Array(extras())),
        ("input"@, JsonView::Array(input_items(messages, messages.len()))),
        (
            "instructions"@,
            JsonView::Text(text::joined(system_texts(messages, messages.len()), "\n\n"@)),
        ),
        ("model"@, JsonView::Text(model)),
        ("parallel_tool_calls"@, JsonView::Bool(true)),
        ("prompt_cache_key"@, JsonView::Text(ids::id_view(session_id))),
        ("reasoning"@, JsonView::Object(reasoning_fields(reasoning_effort))),
    ]
}

/// The last fields of a request for a response.
pub open spec fn response_tail(tools: Seq<JsonView>) -> Fields {
    seq![
        ("store"@, JsonView::Bool(false)),
        ("stream"@, JsonView::Bool(true)),
        ("tool_choice"@, JsonView::Text("auto"@)),
        ("tools"@, JsonView::Array(response_tools(tools, tools.len()))),
    ]
}

fn system_parts(messages: &Vec<Message>) -> (r: Vec<String>)
    ensures
        text::views(r@) == system_texts(message::message_views(messages@), messages@.len()),
{
    let ghost all = message::message_views(messages@);
    let mut r = text::no_texts();
    let mut i: usize = 0;
    while i < messages.len()
        invariant
            i <= messages@.len(),
            all == message::message_views(messages@),
            text::views(r@) == system_texts(all, i as nat),
        decreases messages@.len() - i,
    {
        assert(all[i as int] == messages@[i as int]@);
        match messages[i].role {
            Role::System => {
                if let Some(content) = &messages[i].content {
                    r = text::with(r, content);
                }
            },
            _ => {},
        }
        i += 1;
    }
    r
}

fn text_item_json(role: &str, kind: &str, content: &str) -> (r: Json)
    ensures
        r@ == text_item(role@, kind@, content@),
{
    let part = json::with_field(
        json::with_field(json::no_fields(), "text", json::text_value(content)),
        "type",
        json::text_value(kind),
    );
    assert(json::field_views(part@) == text_part_fields(kind@, content@));
    let parts = json::with_item(json::no_items(), Json::Object(part));
    assert(json::item_views(parts@) == text_parts(kind@, content@));
    let fields = json::with_field(json::no_fields(), "content", Json::Array(parts));
    let fields = json::with_field(fields, "role", json::text_value(role));
    let fields = json::with_field(fields, "type", json::text_value("message"));
    assert(json::field_views(fields@) == text_item_fields(role@, kind@, content@));
    Json::Object(fields)
}

fn call_item_json(call: &ToolCall) -> (r: Json)
    ensures
        r@ == call_item(call@),
{
    let fields = json::with_field(
        json::no_fields(),
        "arguments",
        json::text_value(&call.function.arguments),
    );
    let fields = json::with_field(fields, "call_id", json::text_value(&call.id));
    let fields = json::with_field(fields, "name", json::text_value(&call.function.name));
    let fields = json::with_field(fields, "type", json::text_value("function_call"));
    assert(json::field_views(fields@) == call_item_fields(call@));
    Json::Object(fields)
}

fn output_item_json(call_id: &str, output: &str) -> (r: Json)
    ensures
        r@ == output_item(call_id@, output@),
{
    let fields = json::with_field(json::no_fields(), "call_id", json::text_value(call_id));
    let fields = json::with_field(fields, "output", json::text_value(output));
    let fields = json::with_field(fields, "type", json::text_value("function_call_output"));
    assert(json::field_views(fields@) == output_fields(call_id@, output@));
    Json::Object(fields)
}

fn with_calls(items: Vec<Json>, calls: &Vec<ToolCall>) -> (r: Vec<Json>)
    ensures
        json::item_views(r@) == json::item_views(items@) + call_items(
            message::call_views(calls@),
        ),
{
    let ghost before = json::item_views(items@);
    let ghost all = message::call_views(calls@);
    let mut r = items;
    let mut i: usize = 0;
    assert(before + call_items(all.take(0)) == before);
    while i < calls.len()
        invariant
            i <= calls@.len(),
            all == message::call_views(calls@),
            json::item_views(r@) == before + call_items(all.take(i as int)),
        decreases calls@.len() - i,
    {
        assert(all[i as int] == calls@[i as int]@);
        r = json::with_item(r, call_item_json(&calls[i]));
        assert(before + call_items(all.take(i + 1)) == (before + call_items(
            all.take(i as int),
        )).push(call_item(all[i as int])));
        i += 1;
    }
    assert(all.take(all.len() as int) == all);
    r
}

fn with_message(items: Vec<Json>, m: &Message) -> (r: Vec<Json>)
    ensures
        json::item_views(r@) == json::item_views(items@) + items_of(m@),
{
    let ghost before = json::item_views(items@);
    let mut r = items;
    assert(before + Seq::<JsonView>::empty() == before);
    match m.role {
        Role::System => {},
        Role::User => {
            if let Some(content) = &m.content {
                r = json::with_item(r, text_item_json("user", "input_text", content));
                assert(json::item_views(r@) == before + items_of(m@));
            }
        },
        Role::Assistant => {
            let ghost mut first: Seq<JsonView> = Seq::empty();
            if let Some(content) = &m.content {
                if !content.as_str().is_empty() {
                    r = json::with_item(r, text_item_json("assistant", "output_text", content));
                    proof {
                        first = seq![text_item("assistant"@, "output_text"@, content@)];
                    }
                }
            }
            assert(json::item_views(r@) == before + first);
            if let Some(calls) = &m.tool_calls {
                r = with_calls(r, calls);
                assert(json::item_views(r@) == before + (first + call_items(
                    message::call_views(calls@),
                )));
            } else {
                assert(first + Seq::<JsonView>::empty() == first);
            }
        },
        Role::Tool => {
            if let Some(call_id) = &m.tool_call_id {
                if let Some(content) = &m.content {
                    r = json::with_item(r, output_item_json(call_id, content));
                    assert(json::item_views(r@) == before + items_of(m@));
                }
            }
        },
    }
    r
}

fn input_list(messages: &Vec<Message>) -> (r: Vec<Json>)
    ensures
        json::item_views(r@) == input_items(message::message_views(messages@), messages@.len()),
{
    let ghost all = message::message_views(messages@);
    let mut r = json::no_items();
    let mut i: usize = 0;
    while i < messages.len()
        invariant
            i <= messages@.len(),
            all == message::message_views(messages@),
            json::item_views(r@) == input_items(all, i as nat),
        decreases messages@.len() - i,
    {
        assert(all[i as int] == messages@[i as int]@);
        r = with_message(r, &messages[i]);
        i += 1;
    }
    r
}

fn copied_field(function: &Json, name: &str) -> (r: Json)
    ensures
        r@ == field_or_null(function@, name@),
{
    match function.get(name) {
        Some(v) => v.copy(),
        None => Json::Null,
    }
}

fn response_tool_json(function: &Json) -> (r: Json)
    ensures
        r@ == response_tool(function@),
{
    let fields = json::with_field(
        json::no_fields(),
        "description",
        copied_field(function, "description"),
    );
    let fields = json::with_field(fields, "name", copied_field(function, "name"));
    let fields = json::with_field(fields, "parameters", copied_field(function, "parameters"));
    let fields = json::with_field(fields, "strict", Json::Bool(false));
    let fields = json::with_field(fields, "type", json::text_value("function"));
    assert(json::field_views(fields@) == response_tool_fields(function@));
    Json::Object(fields)
}

fn response_tool_list(tools: &Vec<Json>) -> (r: Vec<Json>)
    ensures
        json::item_views(r@) == response_tools(
            json::item_views(tools@),
            json::item_views(tools@).len(),
        ),
{
    let ghost all = json::item_views(tools@);
    proof {
        json::lemma_item_views(tools@);
    }
    let mut r = json::no_items();
    let mut i: usize = 0;
    while i < tools.len()
        invariant
            i <= tools@.len(),
            all == json::item_views(tools@),
            all.len() == tools@.len(),
            forall|j: int|
                0 <= j < tools@.len() ==> #[trigger] all[j] == json::json_view(tools@[j]),
            json::item_views(r@) == response_tools(all, i as nat),
        decreases tools@.len() - i,
    {
        assert(all[i as int] == tools@[i as int]@);
        if let Some(function) = tools[i].get("function") {
            r = json::with_item(r, response_tool_json(function));
        }
        i += 1;
    }
    r
}

/// A request for a response.
#[verifier::rlimit(50)]
pub fn responses_payload(
    model: &str,
    reasoning_effort: Option<&str>,
    service_tier: Option<&str>,
    messages: &Vec<Message>,
    tools: &Vec<Json>,
    session_id: u128,
) -> (r: Json)
    ensures
        r@ == response_request(
            model@,
            str_view(reasoning_effort),
            str_view(service_tier),
            message::message_views(messages@),
            json::item_views(tools@),
            session_id,
        ),
{
    let id = ids::id_text(session_id);
    let metadata = json::with_field(json::no_fields(), "session_id", json::text_value(&id));
    assert(json::field_views(metadata@) == metadata_fields(session_id));
    let wanted = json::with_item(
        json::no_items(),
        json::text_value("reasoning.encrypted_content"),
    );
    assert(json::item_views(wanted@) == extras());
    let instructions = text::join(&system_parts(messages), "\n\n");
    let reasoning = with_optional(json::no_fields(), "effort", reasoning_effort);
    let ghost effort = json::field_views(reasoning@);
    let reasoning = json::with_field(reasoning, "summary", json::text_value("auto"));
    assert(effort == optional_field("effort"@, optional_text(str_view(reasoning_effort))));
    assert(json::field_views(reasoning@) == reasoning_fields(str_view(reasoning_effort)));
    let fields = json::with_field(json::no_fields(), "client_metadata", Json::Object(metadata));
    let fields = json::with_field(fields, "include", Json::Array(wanted));
    let fields = json::with_field(fields, "input", Json::Array(input_list(messages)));
    let fields = json::with_field(fields, "instructions", json::text_value(&instructions));
    let fields = json::with_field(fields, "model", json::text_value(model));
    let fields = json::with_field(fields, "parallel_tool_calls", Json::Bool(true));
    let fields = json::with_field(fields, "prompt_cache_key", json::text_value(&id));
    let fields = json::with_field(fields, "reasoning", Json::Object(reasoning));
    assert(json::field_views(fields@) == response_head(
        model@,
        str_view(reasoning_effort),
        message::message_views(messages@),
        session_id,
    ));
    let fields = with_optional(fields, "service_tier", service_tier);
    let ghost head = json::field_views(fields@);
    let list = response_tool_list(tools);
    let fields = json::with_field(fields, "store", Json::Bool(false));
    let fields = json::with_field(fields, "stream", Json::Bool(true));
    let fields = json::with_field(fields, "tool_choice", json::text_value("auto"));
    let fields = json::with_field(fields, "tools", Json::Array(list));
    assert(json::field_views(fields@) == head + response_tail(json::item_views(tools@)));
    Json::Object(fields)
}

// ---------------------------------------------------------------------------
// What a request carries

proof fn lemma_input_items(a: Seq<MessageView>, b: Seq<MessageView>, n: nat)
    requires
        n <= a.len(),
        n <= b.len(),
        forall|i: int| 0 <= i < n ==> a[i] == b[i],
    ensures
        input_items(a, n) == input_items(b, n),
    decreases n,
{
    if n > 0 {
        lemma_input_items(a, b, (n - 1) as nat);
    }
}

proof fn lemma_input_add(a: Seq<MessageView>, b: Seq<MessageView>, n: nat)
    requires
        n <= b.len(),
    ensures
        input_items(a + b, a.len() + n) == input_items(a, a.len()) + input_items(b, n),
    decreases n,
{
    if n == 0 {
        lemma_input_items(a, a + b, a.len());
        assert(input_items(a, a.len()) + Seq::<JsonView>::empty() == input_items(a, a.len()));
    } else {
        lemma_input_add(a, b, (n - 1) as nat);
        assert((a + b)[a.len() + n - 1] == b[n - 1]);
        assert(input_items(a, a.len()) + (input_items(b, (n - 1) as nat) + items_of(b[n - 1])) == (
        input_items(a, a.len()) + input_items(b, (n - 1) as nat)) + items_of(b[n - 1]));
    }
}

/// Whether an item says a text in a role.
pub open spec fn says(item: JsonView, role: Seq<char>, kind: Seq<char>, content: Seq<char>) -> bool {
    &&& item.field("type"@) == Some(JsonView::Text("message"@))
    &&& item.field("role"@) == Some(JsonView::Text(role))
    &&& item.field("content"@) matches Some(JsonView::Array(parts)) && parts.len() == 1
        && parts[0].field("type"@) == Some(JsonView::Text(kind)) && parts[0].field("text"@) == Some(
        JsonView::Text(content),
    )
}

/// Whether an item is a call of a tool.
pub open spec fn asks(item: JsonView, call: ToolCallView) -> bool {
    &&& item.field("type"@) == Some(JsonView::Text("function_call"@))
    &&& item.field("call_id"@) == Some(JsonView::Text(call.id))
    &&& item.field("name"@) == Some(JsonView::Text(call.name))
    &&& item.field("arguments"@) == Some(JsonView::Text(call.arguments))
}

/// Whether an item is what a tool gave back.
pub open spec fn gives_back(item: JsonView, id: Seq<char>, output: Seq<char>) -> bool {
    &&& item.field("type"@) == Some(JsonView::Text("function_call_output"@))
    &&& item.field("call_id"@) == Some(JsonView::Text(id))
    &&& item.field("output"@) == Some(JsonView::Text(output))
}

proof fn lemma_names()
    ensures
        "content"@.len() == 7,
        "role"@.len() == 4,
        "type"@.len() == 4,
        "text"@.len() == 4,
        "arguments"@.len() == 9,
        "call_id"@.len() == 7,
        "name"@.len() == 4,
        "output"@.len() == 6,
        "role"@[0] == 'r',
        "type"@[1] == 'y',
        "text"@[1] == 'e',
        "name"@[0] == 'n',
        "type"@[0] == 't',
        "text"@[0] == 't',
{
    reveal_strlit("content");
    reveal_strlit("role");
    reveal_strlit("type");
    reveal_strlit("text");
    reveal_strlit("arguments");
    reveal_strlit("call_id");
    reveal_strlit("name");
    reveal_strlit("output");
}

proof fn lemma_items(role: Seq<char>, kind: Seq<char>, content: Seq<char>, call: ToolCallView)
    ensures
        says(text_item(role, kind, content), role, kind, content),
        asks(call_item(call), call),
        gives_back(output_item(call.id, content), call.id, content),
{
    reveal_with_fuel(json::field_position, 5);
    lemma_names();
    let a = text_item_fields(role, kind, content);
    assert("role"@ != "type"@);
    assert("text"@ != "type"@);
    assert("name"@ != "type"@);
    assert("content"@ != "role"@ && "content"@ != "type"@);
    assert(a[0].0 == "content"@ && a[1].0 == "role"@ && a[2].0 == "type"@);
    let p = text_part_fields(kind, content);
    assert(p[0].0 == "text"@ && p[1].0 == "type"@);
    assert(text_parts(kind, content)[0] == JsonView::Object(p));
    let c = call_item_fields(call);
    assert("arguments"@ != "call_id"@ && "arguments"@ != "name"@ && "arguments"@ != "type"@);
    assert("call_id"@ != "name"@ && "call_id"@ != "type"@);
    assert(c[0].0 == "arguments"@ && c[1].0 == "call_id"@ && c[2].0 == "name"@ && c[3].0
        == "type"@);
    let o = output_fields(call.id, content);
    assert("call_id"@ != "output"@ && "output"@ != "type"@);
    assert(o[0].0 == "call_id"@ && o[1].0 == "output"@ && o[2].0 == "type"@);
}

/// Nothing that was said or asked is lost in a request, and all of it stands in the order in which it
/// was said: what comes before a message gives the first items and what comes after it the last.
/// Between them stand what the message says, under its role, and the tools that it calls.
pub proof fn nothing_said_is_lost(
    before: Seq<MessageView>,
    m: MessageView,
    after: Seq<MessageView>,
)
    ensures
        ({
            let all = before.push(m) + after;
            let first = input_items(before, before.len());
            let last = input_items(after, after.len());
            let items = input_items(all, all.len());
            let own = items.subrange(first.len() as int, items.len() - last.len());
            let calls = if m.tool_calls is Some {
                m.tool_calls->0
            } else {
                Seq::empty()
            };
            &&& items.len() >= first.len() + last.len()
            &&& items.take(first.len() as int) == first
            &&& items.skip(items.len() - last.len()) == last
            &&& m.role == Role::System ==> own.len() == 0
            &&& m.role == Role::User && m.content is Some ==> own.len() == 1 && says(
                own[0],
                "user"@,
                "input_text"@,
                m.content->0,
            )
            &&& m.role == Role::Assistant && m.content is Some && m.content->0.len() > 0 ==> {
                &&& own.len() == 1 + calls.len()
                &&& says(own[0], "assistant"@, "output_text"@, m.content->0)
                &&& forall|i: int| 0 <= i < calls.len() ==> asks(#[trigger] own[i + 1], calls[i])
            }
            &&& m.role == Role::Assistant && (m.content is None || m.content->0.len() == 0) ==> {
                &&& own.len() == calls.len()
                &&& forall|i: int| 0 <= i < calls.len() ==> asks(#[trigger] own[i], calls[i])
            }
            &&& m.role == Role::Tool && m.content is Some && m.tool_call_id is Some ==> own.len()
                == 1 && gives_back(own[0], m.tool_call_id->0, m.content->0)
            &&& m.role == Role::Tool && (m.content is None || m.tool_call_id is None) ==> own.len()
                == 0
        }),
        input_items(Seq::empty(), 0).len() == 0,
{
    let one = seq![m];
    let head = before.push(m);
    let all = head + after;
    assert(head == before + one);
    lemma_input_add(before, one, 1);
    lemma_input_add(head, after, after.len());
    assert(input_items(one, 0) == Seq::<JsonView>::empty());
    assert(input_items(one, 1) == Seq::<JsonView>::empty() + items_of(m));
    let first = input_items(before, before.len());
    let last = input_items(after, after.len());
    let items = input_items(all, all.len());
    let own = items.subrange(first.len() as int, items.len() - last.len());
    assert(items == first + items_of(m) + last);
    assert(items.take(first.len() as int) == first);
    assert(items.skip(items.len() - last.len()) == last);
    assert(own == items_of(m));
    let content = if m.content is Some {
        m.content->0
    } else {
        Seq::empty()
    };
    let calls = if m.tool_calls is Some {
        m.tool_calls->0
    } else {
        Seq::empty()
    };
    let call = ToolCallView {
        id: if m.tool_call_id is Some {
            m.tool_call_id->0
        } else {
            Seq::empty()
        },
        kind: Seq::empty(),
        name: Seq::empty(),
        arguments: Seq::empty(),
    };
    lemma_items("user"@, "input_text"@, content, call);
    lemma_items("assistant"@, "output_text"@, content, call);
    assert forall|i: int| 0 <= i < calls.len() implies asks(call_item(#[trigger] calls[i]), calls[i]) by {
        lemma_items("assistant"@, "output_text"@, content, calls[i]);
    }
    assert(m.tool_calls is Some ==> call_items(calls).len() == calls.len());
    if m.role == Role::Assistant {
        if m.content is Some && content.len() > 0 {
            assert forall|i: int| 0 <= i < calls.len() implies asks(#[trigger] own[i + 1], calls[i]) by {
                assert(own[i + 1] == call_item(calls[i]));
            }
        } else {
            assert(own == if m.tool_calls is Some {
                call_items(calls)
            } else {
                Seq::empty()
            });
            assert forall|i: int| 0 <= i < calls.len() implies asks(#[trigger] own[i], calls[i]) by {
                assert(own[i] == call_item(calls[i]));
            }
        }
    }
}

proof fn lemma_system_texts(a: Seq<MessageView>, b: Seq<MessageView>, n: nat)
    requires
        n <= a.len(),
        n <= b.len(),
        forall|i: int| 0 <= i < n ==> a[i] == b[i],
    ensures
        system_texts(a, n) == system_texts(b, n),
    decreases n,
{
    if n > 0 {
        lemma_system_texts(a, b, (n - 1) as nat);
    }
}

/// What system messages say, and nothing else, is an instruction, in the order in which it was said.
pub proof fn instructions_are_what_the_system_says(before: Seq<MessageView>, m: MessageView)
    ensures
        ({
            let said = system_texts(before, before.len());
            let all = system_texts(before.push(m), before.len() + 1);
            if m.role == Role::System && m.content is Some {
                all == said.push(m.content->0)
            } else {
                all == said
            }
        }),
        system_texts(Seq::empty(), 0).len() == 0,
{
    lemma_system_texts(before, before.push(m), before.len());
}

/// The field of a request that is called so.
pub open spec fn holds(request: JsonView, name: Seq<char>, value: JsonView) -> bool {
    request matches JsonView::Object(fields) && fields.contains((name, value))
}

/// A request for a response holds what was said, what the system says, the model and the tools; it is
/// streamed and not stored.
pub proof fn a_response_request_holds_its_parts(
    model: Seq<char>,
    reasoning_effort: Option<Seq<char>>,
    service_tier: Option<Seq<char>>,
    messages: Seq<MessageView>,
    tools: Seq<JsonView>,
    session_id: u128,
)
    ensures
        ({
            let r = response_request(
                model,
                reasoning_effort,
                service_tier,
                messages,
                tools,
                session_id,
            );
            &&& holds(r, "model"@, JsonView::Text(model))
            &&& holds(r, "input"@, JsonView::Array(input_items(messages, messages.len())))
            &&& holds(
                r,
                "instructions"@,
                JsonView::Text(text::joined(system_texts(messages, messages.len()), "\n\n"@)),
            )
            &&& holds(r, "tools"@, JsonView::Array(response_tools(tools, tools.len())))
            &&& holds(r, "tool_choice"@, JsonView::Text("auto"@))
            &&& holds(r, "stream"@, JsonView::Bool(true))
            &&& holds(r, "store"@, JsonView::Bool(false))
            &&& holds(r, "parallel_tool_calls"@, JsonView::Bool(true))
            &&& holds(r, "prompt_cache_key"@, JsonView::Text(ids::id_view(session_id)))
            &&& service_tier matches Some(t) ==> holds(r, "service_tier"@, JsonView::Text(t))
            &&& exists|reasoning: JsonView|
                holds(r, "reasoning"@, reasoning) && holds(
                    reasoning,
                    "summary"@,
                    JsonView::Text("auto"@),
                ) && (reasoning_effort matches Some(e) ==> holds(
                    reasoning,
                    "effort"@,
                    JsonView::Text(e),
                ))
        }),
{
    let head = response_head(model, reasoning_effort, messages, session_id);
    let middle = optional_field("service_tier"@, optional_text(service_tier));
    let tail = response_tail(tools);
    let all = head + middle + tail;
    assert(all[2] == head[2] && all[3] == head[3] && all[4] == head[4]);
    assert(all[5] == head[5] && all[6] == head[6] && all[7] == head[7]);
    let n = (head.len() + middle.len()) as int;
    assert(all[n] == tail[0] && all[n + 1] == tail[1] && all[n + 2] == tail[2] && all[n + 3]
        == tail[3]);
    assert(service_tier is Some ==> all[head.len() as int] == middle[0]);
    let effort = optional_field("effort"@, optional_text(reasoning_effort));
    let inner = reasoning_fields(reasoning_effort);
    assert(inner[effort.len() as int] == ("summary"@, JsonView::Text("auto"@)));
    assert(reasoning_effort is Some ==> inner[0] == effort[0]);
    let r = response_request(model, reasoning_effort, service_tier, messages, tools, session_id);
    assert(holds(r, "reasoning"@, JsonView::Object(inner)));
}

/// Every tool that has a function is offered under the name, description and parameters that it has,
/// in the order in which the tools stand.
pub proof fn every_tool_is_offered(before: Seq<JsonView>, tool: JsonView, function: JsonView)
    requires
        tool.field("function"@) == Some(function),
    ensures
        ({
            let first = response_tools(before, before.len());
            let all = response_tools(before.push(tool), before.len() + 1);
            &&& all.len() == first.len() + 1
            &&& all.take(first.len() as int) == first
            &&& function.field("name"@) matches Some(v) ==> holds(all.last(), "name"@, v)
            &&& function.field("description"@) matches Some(v) ==> holds(
                all.last(),
                "description"@,
                v,
            )
            &&& function.field("parameters"@) matches Some(v) ==> holds(
                all.last(),
                "parameters"@,
                v,
            )
            &&& holds(all.last(), "type"@, JsonView::Text("function"@))
            &&& holds(all.last(), "strict"@, JsonView::Bool(false))
        }),
{
    lemma_response_tools(before, before.push(tool), before.len());
    let f = response_tool_fields(function);
    assert(f[0].0 == "description"@ && f[1].0 == "name"@ && f[2].0 == "parameters"@);
    assert(f[3].0 == "strict"@ && f[4].0 == "type"@);
    let first = response_tools(before, before.len());
    let all = response_tools(before.push(tool), before.len() + 1);
    assert(all.take(first.len() as int) == first);
}

proof fn lemma_response_tools(a: Seq<JsonView>, b: Seq<JsonView>, n: nat)
    requires
        n <= a.len(),
        n <= b.len(),
        forall|i: int| 0 <= i < n ==> a[i] == b[i],
    ensures
        response_tools(a, n) == response_tools(b, n),
    decreases n,
{
    if n > 0 {
        lemma_response_tools(a, b, (n - 1) as nat);
    }
}

/// A request for a chat completion holds every message in its place, with its role, what it says, the
/// calls that it makes and the call that it answers; the model; and the tools.
pub proof fn a_chat_request_holds_every_message(
    model: Seq<char>,
    messages: Seq<MessageView>,
    tools: Seq<JsonView>,
    reasoning_effort: Option<Seq<char>>,
    service_tier: Option<Seq<char>>,
)
    ensures
        ({
            let r = chat_request(model, messages, tools, reasoning_effort, service_tier);
            &&& holds(r, "model"@, JsonView::Text(model))
            &&& holds(r, "tools"@, JsonView::Array(tools))
            &&& holds(r, "stream"@, JsonView::Bool(true))
            &&& holds(r, "tool_choice"@, JsonView::Text("auto"@))
            &&& holds(r, "parallel_tool_calls"@, JsonView::Bool(true))
            &&& reasoning_effort matches Some(e) ==> holds(
                r,
                "reasoning_effort"@,
                JsonView::Text(e),
            )
            &&& service_tier matches Some(t) ==> holds(r, "service_tier"@, JsonView::Text(t))
            &&& exists|sent: Seq<JsonView>| #[trigger]
                holds(r, "messages"@, JsonView::Array(sent)) && sent.len() == messages.len()
                    && forall|i: int| 0 <= i < sent.len() ==> is_sent(#[trigger] sent[i], messages[i])
        }),
{
    let head = chat_head(model, messages);
    let a = optional_field("reasoning_effort"@, optional_text(reasoning_effort));
    let b = optional_field("service_tier"@, optional_text(service_tier));
    let tail = chat_tail(tools);
    let all = head + a + b + tail;
    let r = chat_request(model, messages, tools, reasoning_effort, service_tier);
    assert(all[0] == head[0] && all[1] == head[1] && all[2] == head[2]);
    let n = (head.len() + a.len() + b.len()) as int;
    assert(all[n] == tail[0] && all[n + 1] == tail[1] && all[n + 2] == tail[2]);
    assert(reasoning_effort is Some ==> all[3] == a[0]);
    assert(service_tier is Some ==> all[3 + a.len() as int] == b[0]);
    let sent = message_values(messages);
    assert(holds(r, "messages"@, JsonView::Array(sent)));
    assert forall|i: int| 0 <= i < sent.len() implies is_sent(#[trigger] sent[i], messages[i]) by {
        lemma_is_sent(messages[i]);
    }
}

/// Whether a value is a message as it is sent.
pub open spec fn is_sent(value: JsonView, m: MessageView) -> bool {
    &&& m.role == Role::System ==> holds(value, "role"@, JsonView::Text("system"@))
    &&& m.role == Role::User ==> holds(value, "role"@, JsonView::Text("user"@))
    &&& m.role == Role::Assistant ==> holds(value, "role"@, JsonView::Text("assistant"@))
    &&& m.role == Role::Tool ==> holds(value, "role"@, JsonView::Text("tool"@))
    &&& m.content matches Some(c) ==> holds(value, "content"@, JsonView::Text(c))
    &&& m.tool_call_id matches Some(id) ==> holds(value, "tool_call_id"@, JsonView::Text(id))
    &&& m.tool_calls matches Some(calls) ==> exists|sent: Seq<JsonView>| #[trigger]
        holds(value, "tool_calls"@, JsonView::Array(sent)) && sent.len() == calls.len() && forall|
            i: int,
        |
            0 <= i < sent.len() ==> is_sent_call(#[trigger] sent[i], calls[i])
}

/// Whether a value is a call of a tool as it is sent.
pub open spec fn is_sent_call(value: JsonView, call: ToolCallView) -> bool {
    &&& holds(value, "id"@, JsonView::Text(call.id))
    &&& holds(value, "type"@, JsonView::Text(call.kind))
    &&& exists|function: JsonView| #[trigger]
        holds(value, "function"@, function) && holds(function, "name"@, JsonView::Text(call.name))
            && holds(function, "arguments"@, JsonView::Text(call.arguments))
}

proof fn lemma_is_sent(m: MessageView)
    ensures
        is_sent(message_value(m), m),
{
    let value = message_value(m);
    let a = optional_field("content"@, optional_text(m.content));
    let role = ("role"@, JsonView::Text(role_text(m.role)));
    let c = optional_field("tool_call_id"@, optional_text(m.tool_call_id));
    let calls = if m.tool_calls is Some {
        m.tool_calls->0
    } else {
        Seq::empty()
    };
    let sent = call_values(calls);
    let d = optional_field(
        "tool_calls"@,
        if m.tool_calls is Some {
            Some(JsonView::Array(sent))
        } else {
            None
        },
    );
    let all = a + seq![role] + c + d;
    assert(value == JsonView::Object(all));
    assert(all[a.len() as int] == role);
    assert(m.content is Some ==> all[0] == a[0]);
    assert(m.tool_call_id is Some ==> all[a.len() as int + 1] == c[0]);
    assert(m.tool_calls is Some ==> all[a.len() as int + 1 + c.len()] == d[0]);
    assert forall|i: int| 0 <= i < sent.len() implies is_sent_call(#[trigger] sent[i], calls[i]) by {
        let call = calls[i];
        let f = call_fields(call);
        assert(f[0].0 == "function"@ && f[1].0 == "id"@ && f[2].0 == "type"@);
        let g = function_fields(call);
        assert(g[0].0 == "arguments"@ && g[1].0 == "name"@);
        assert(holds(sent[i], "function"@, JsonView::Object(g)));
    }
    if m.tool_calls is Some {
        assert(holds(value, "tool_calls"@, JsonView::Array(sent)));
    }
}

/// Whatever was said stands in the request that is made: in its own role, between what was said before
/// and after.
pub proof fn a_request_says_what_was_said(
    model: &str,
    effort: Option<&str>,
    tier: Option<&str>,
    messages: &Vec<Message>,
    tools: &Vec<Json>,
    session_id: u128,
    r: Json,
    k: int,
) -> (at: (Seq<JsonView>, int))
    requires
        call_ensures(responses_payload, (model, effort, tier, messages, tools, session_id), r),
        0 <= k < messages@.len(),
        messages@[k].content is Some,
        messages@[k].content->0@.len() > 0,
        messages@[k].role == Role::User || messages@[k].role == Role::Assistant,
    ensures
        holds(r@, "input"@, JsonView::Array(at.0)),
        0 <= at.1 < at.0.len(),
        messages@[k].role == Role::User ==> says(
            at.0[at.1],
            "user"@,
            "input_text"@,
            messages@[k].content->0@,
        ),
        messages@[k].role == Role::Assistant ==> says(
            at.0[at.1],
            "assistant"@,
            "output_text"@,
            messages@[k].content->0@,
        ),
{
    let all = message::message_views(messages@);
    let before = all.take(k);
    let m = all[k];
    let after = all.skip(k + 1);
    assert(before.push(m) + after == all);
    nothing_said_is_lost(before, m, after);
    a_response_request_holds_its_parts(
        model@,
        str_view(effort),
        str_view(tier),
        all,
        json::item_views(tools@),
        session_id,
    );
    let items = input_items(all, all.len());
    let first = input_items(before, before.len());
    let last = input_items(after, after.len());
    let own = items.subrange(first.len() as int, items.len() - last.len());
    assert(own[0] == items[first.len() as int]);
    (items, first.len() as int)
}

/// A request to a provider holds every message, in its order and as it was said.
pub proof fn a_chat_says_what_was_said(
    model: &str,
    messages: &Vec<Message>,
    tools: Vec<Json>,
    effort: Option<&str>,
    tier: Option<&str>,
    r: Json,
)
    requires
        call_ensures(chat_payload, (model, messages, tools, effort, tier), r),
    ensures
        holds(r@, "model"@, JsonView::Text(model@)),
        exists|sent: Seq<JsonView>| #[trigger]
            holds(r@, "messages"@, JsonView::Array(sent)) && sent.len() == messages@.len()
                && forall|i: int| 0 <= i < sent.len() ==> is_sent(#[trigger] sent[i], messages@[i]@),
{
    let all = message::message_views(messages@);
    a_chat_request_holds_every_message(
        model@,
        all,
        json::item_views(tools@),
        str_view(effort),
        str_view(tier),
    );
    let sent = choose|sent: Seq<JsonView>| #[trigger]
        holds(r@, "messages"@, JsonView::Array(sent)) && sent.len() == all.len() && forall|i: int|
            0 <= i < sent.len() ==> is_sent(#[trigger] sent[i], all[i]);
    assert forall|i: int| 0 <= i < sent.len() implies is_sent(#[trigger] sent[i], messages@[i]@) by {
        assert(all[i] == messages@[i]@);
    }
}

} // verus!
